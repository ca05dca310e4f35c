//! Player profiles, their rewards and their achievement claims, kept in
//! memory, logged to the ledger and persisted through a storage backend.

use vstd::prelude::*;
use vstd::arithmetic::power::pow;
use vstd::utf8::*;
use crate::claim::{
    decision_code_name, decision_code_text, envelope_fault, award_view, EabAwardReference, EabAwardReferenceView, EabClaimAcknowledgement,
    EabClaimAcknowledgementView, EabClaimDecisionCode, EabClaimDisposition, EabClaimEnvelope,
    EabClaimEnvelopeError, EabClaimEnvelopeErrorView, EabClaimEnvelopeView,
    EAB_CLAIM_ACKNOWLEDGEMENT_SCHEMA_VERSION,
};
use crate::achievement::{
    definition_json, mode_allows_claim_review, AchievementRepeatability,
};
use crate::offline::definition_digest;
use crate::digest::hex_char;
use crate::digest::{sha256_hex, sha256_hex_of};
use crate::hd::{lanes_for, BitVec};
use crate::ledger::{
    achievement_json, entitlement_json, hash_consistent, meets_work, profile_json,
    write_achievement, write_entitlement, write_profile, Achievement, AchievementView, Block,
    Blockchain, Entitlement, EntitlementView, PlayerProfile, PlayerProfileView, ProfileChange,
    Transaction, TransactionData, TransactionDataView, APP_VERSION, chain_valid, is_genesis,
};
use crate::offline::{new_uuid_text, now_rfc3339, timestamp_text, uuid_text};
use crate::table::Table;
use crate::registry::EntitlementDefinition;
use crate::achievement::{award_metadata_json, award_metadata_text, AchievementDefinition, AchievementDefinitionView};
use crate::text::{copy_opt_string, copy_string, opt_view, str_eq};

verus! {

/// The dimension of a new profile's vector.
pub const DEFAULT_DIM: usize = 16384;

// ---------------------------------------------------------------------
// Errors.
// ---------------------------------------------------------------------

#[derive(Debug, Clone, Copy, PartialEq, Eq, Structural)]
pub enum ProfileErrorKind {
    NotFound,
    InvalidInput,
    InvalidData,
    Other,
}

/// A failed profile operation: its kind and its message.
#[derive(Debug)]
pub struct ProfileError {
    pub kind: ProfileErrorKind,
    pub message: String,
}

impl ProfileError {
    pub fn new(kind: ProfileErrorKind, message: &str) -> (r: Self)
        ensures
            r.kind == kind,
            r.message@ == message@,
    {
        ProfileError { kind, message: String::from_str(message) }
    }

    pub fn kind(&self) -> (r: ProfileErrorKind)
        ensures
            r == self.kind,
    {
        self.kind
    }

    pub fn message(&self) -> (r: &str)
        ensures
            r@ == self.message@,
    {
        self.message.as_str()
    }
}

/// The error that says no profile exists for the player.
pub open spec fn profile_missing(e: ProfileError) -> bool {
    e.kind == ProfileErrorKind::NotFound && e.message@ == "profile not found"@
}

// ---------------------------------------------------------------------
// Player ids as UUIDs.
// ---------------------------------------------------------------------

/// What `uuid::Uuid::parse_str` reads from `s`: the 128 bits of the UUID,
/// or `None` where it refuses the text.
pub uninterp spec fn uuid_bits_of(s: Seq<char>) -> Option<u128>;

/// `uuid::Uuid::parse_str`, the UUID taken as its 128 bits; the
/// hyphenated lowercase form of a UUID is read back as its bits.
#[verifier::external_body]
pub(crate) fn parse_uuid(s: &str) -> (r: Option<u128>)
    ensures
        r == uuid_bits_of(s@),
        forall|b: u128| s@ == hyphenated_uuid(b) ==> r == Some(b),
{
    match uuid::Uuid::parse_str(s) {
        Ok(u) => Some(u.as_u128()),
        Err(_) => None,
    }
}

/// The hexadecimal digit `k` of `bits`, counted from the most significant.
pub open spec fn uuid_digit(bits: u128, k: int) -> char {
    hex_char(((bits as int) / pow(16, (31 - k) as nat)) % 16)
}

/// Which digit the character at `j` of the hyphenated form shows.
pub open spec fn uuid_digit_at(j: int) -> int {
    if j < 8 {
        j
    } else if j < 13 {
        j - 1
    } else if j < 18 {
        j - 2
    } else if j < 23 {
        j - 3
    } else {
        j - 4
    }
}

/// The hyphenated lowercase text of the UUID with these bits:
/// 8-4-4-4-12 hexadecimal digits.
pub open spec fn hyphenated_uuid(bits: u128) -> Seq<char> {
    Seq::new(
        36,
        |j: int|
            if j == 8 || j == 13 || j == 18 || j == 23 {
                '-'
            } else {
                uuid_digit(bits, uuid_digit_at(j))
            },
    )
}

/// `uuid::Uuid::from_u128` shown with `to_string`: the hyphenated
/// lowercase hexadecimal form.
#[verifier::external_body]
pub(crate) fn uuid_text_of(bits: u128) -> (r: String)
    ensures
        r@ == hyphenated_uuid(bits),
{
    uuid::Uuid::from_u128(bits).to_string()
}

// ---------------------------------------------------------------------
// Rewards and claims.
// ---------------------------------------------------------------------

/// The entitlements and achievements a player holds.
#[derive(Debug, Clone)]
pub struct PlayerRewardState {
    pub entitlements: Vec<Entitlement>,
    pub achievements: Vec<Achievement>,
}

#[verifier::ext_equal]
pub struct PlayerRewardStateView {
    pub entitlements: Seq<EntitlementView>,
    pub achievements: Seq<AchievementView>,
}

/// The views of a list of entitlements.
pub open spec fn entitlements_view(v: Seq<Entitlement>) -> Seq<EntitlementView> {
    v.map_values(|e: Entitlement| e@)
}

/// The views of a list of achievements.
pub open spec fn achievements_view(v: Seq<Achievement>) -> Seq<AchievementView> {
    v.map_values(|a: Achievement| a@)
}

impl View for PlayerRewardState {
    type V = PlayerRewardStateView;

    open spec fn view(&self) -> PlayerRewardStateView {
        PlayerRewardStateView {
            entitlements: entitlements_view(self.entitlements@),
            achievements: achievements_view(self.achievements@),
        }
    }
}

impl Default for PlayerRewardState {
    fn default() -> (r: Self)
        ensures
            r.entitlements@.len() == 0,
            r.achievements@.len() == 0,
    {
        PlayerRewardState { entitlements: Vec::new(), achievements: Vec::new() }
    }
}

#[derive(Debug, Clone, Copy, PartialEq, Eq, Structural)]
pub enum AchievementClaimStatus {
    Pending,
    Promoted,
    Rejected,
}

/// A player's claim to an achievement and how it was reviewed.
#[derive(Debug, Clone, PartialEq, Eq)]
pub struct AchievementClaim {
    pub developer: String,
    pub game: String,
    pub achievement_id: String,
    pub version: u32,
    pub claim_id: String,
    pub session_id: String,
    pub client_sequence: u64,
    pub claimed_at: String,
    pub evidence: Option<String>,
    pub submitted_at: String,
    pub status: AchievementClaimStatus,
    pub reviewed_at: Option<String>,
    pub reviewer: Option<String>,
    pub review_note: Option<String>,
    pub awarded_transaction_id: Option<String>,
    pub awarded_block_hash: Option<String>,
    pub canonical_envelope: Option<EabClaimEnvelope>,
    pub acknowledgement: Option<EabClaimAcknowledgement>,
}

pub struct AchievementClaimView {
    pub developer: Seq<char>,
    pub game: Seq<char>,
    pub achievement_id: Seq<char>,
    pub version: u32,
    pub claim_id: Seq<char>,
    pub session_id: Seq<char>,
    pub client_sequence: u64,
    pub claimed_at: Seq<char>,
    pub evidence: Option<Seq<char>>,
    pub submitted_at: Seq<char>,
    pub status: AchievementClaimStatus,
    pub reviewed_at: Option<Seq<char>>,
    pub reviewer: Option<Seq<char>>,
    pub review_note: Option<Seq<char>>,
    pub awarded_transaction_id: Option<Seq<char>>,
    pub awarded_block_hash: Option<Seq<char>>,
    pub canonical_envelope: Option<EabClaimEnvelopeView>,
    pub acknowledgement: Option<EabClaimAcknowledgementView>,
}

pub open spec fn envelope_view(e: Option<EabClaimEnvelope>) -> Option<EabClaimEnvelopeView> {
    match e {
        Some(v) => Some(v@),
        None => None,
    }
}

pub open spec fn acknowledgement_view(a: Option<EabClaimAcknowledgement>) -> Option<
    EabClaimAcknowledgementView,
> {
    match a {
        Some(v) => Some(v@),
        None => None,
    }
}

impl View for AchievementClaim {
    type V = AchievementClaimView;

    open spec fn view(&self) -> AchievementClaimView {
        AchievementClaimView {
            developer: self.developer@,
            game: self.game@,
            achievement_id: self.achievement_id@,
            version: self.version,
            claim_id: self.claim_id@,
            session_id: self.session_id@,
            client_sequence: self.client_sequence,
            claimed_at: self.claimed_at@,
            evidence: opt_view(self.evidence),
            submitted_at: self.submitted_at@,
            status: self.status,
            reviewed_at: opt_view(self.reviewed_at),
            reviewer: opt_view(self.reviewer),
            review_note: opt_view(self.review_note),
            awarded_transaction_id: opt_view(self.awarded_transaction_id),
            awarded_block_hash: opt_view(self.awarded_block_hash),
            canonical_envelope: envelope_view(self.canonical_envelope),
            acknowledgement: acknowledgement_view(self.acknowledgement),
        }
    }
}

impl AchievementClaim {
    /// A copy with the same view.
    pub fn duplicate(&self) -> (r: Self)
        ensures
            r@ == self@,
    {
        AchievementClaim {
            developer: copy_string(&self.developer),
            game: copy_string(&self.game),
            achievement_id: copy_string(&self.achievement_id),
            version: self.version,
            claim_id: copy_string(&self.claim_id),
            session_id: copy_string(&self.session_id),
            client_sequence: self.client_sequence,
            claimed_at: copy_string(&self.claimed_at),
            evidence: copy_opt_string(&self.evidence),
            submitted_at: copy_string(&self.submitted_at),
            status: self.status,
            reviewed_at: copy_opt_string(&self.reviewed_at),
            reviewer: copy_opt_string(&self.reviewer),
            review_note: copy_opt_string(&self.review_note),
            awarded_transaction_id: copy_opt_string(&self.awarded_transaction_id),
            awarded_block_hash: copy_opt_string(&self.awarded_block_hash),
            canonical_envelope: match &self.canonical_envelope {
                Some(e) => Some(e.duplicate()),
                None => None,
            },
            acknowledgement: match &self.acknowledgement {
                Some(a) => Some(a.duplicate()),
                None => None,
            },
        }
    }
}

/// What a player submits to claim an achievement.
#[derive(Debug, Clone)]
pub struct AchievementClaimInput {
    pub developer: String,
    pub game: String,
    pub achievement_id: String,
    pub version: u32,
    pub claim_id: String,
    pub session_id: String,
    pub client_sequence: u64,
    pub claimed_at: String,
    pub evidence: Option<String>,
}

/// A reward written to the ledger: its transaction and the block holding it.
#[derive(Debug, Clone)]
pub struct AwardRecord {
    pub player_id: String,
    pub transaction_id: String,
    pub transaction_type: String,
    pub timestamp: String,
    pub data_hash: String,
    pub block_hash: String,
    pub details: TransactionData,
}

#[derive(Debug, Clone, Copy, PartialEq, Eq, Structural)]
pub enum AchievementClaimReviewAction {
    Promote,
    Reject,
}

/// The views of a list of claims.
pub open spec fn claims_view(v: Seq<AchievementClaim>) -> Seq<AchievementClaimView> {
    v.map_values(|c: AchievementClaim| c@)
}

/// Whether `i` is the first claim in `s` with id `id`.
pub open spec fn first_claim_at(s: Seq<AchievementClaimView>, id: Seq<char>, i: int) -> bool {
    &&& 0 <= i < s.len()
    &&& s[i].claim_id == id
    &&& forall|j: int| 0 <= j < i ==> s[j].claim_id != id
}

/// The index of the first claim in `s` with id `id`.
pub open spec fn claim_index(s: Seq<AchievementClaimView>, id: Seq<char>) -> Option<int> {
    if exists|i: int| first_claim_at(s, id, i) {
        Some(choose|i: int| first_claim_at(s, id, i))
    } else {
        None
    }
}

/// A claim added under an id not yet present is found at its new index.
pub proof fn lemma_claim_index_push(s: Seq<AchievementClaimView>, c: AchievementClaimView)
    requires
        claim_index(s, c.claim_id) is None,
    ensures
        claim_index(s.push(c), c.claim_id) == Some(s.len() as int),
{
    let t = s.push(c);
    let n = s.len() as int;
    assert forall|j: int| 0 <= j < n implies t[j].claim_id != c.claim_id by {
        if t[j].claim_id == c.claim_id {
            assert(t[j] == s[j]);
            lemma_first_claim_exists(s, c.claim_id, j);
        }
    }
    assert(first_claim_at(t, c.claim_id, n));
    let k = choose|k: int| first_claim_at(t, c.claim_id, k);
    assert(k == n) by {
        if k < n {
            assert(t[k].claim_id == c.claim_id);
        } else if k > n {
        }
    }
}

/// A claim with id `id` at index `j` means a first one exists.
proof fn lemma_first_claim_exists(s: Seq<AchievementClaimView>, id: Seq<char>, j: int)
    requires
        0 <= j < s.len(),
        s[j].claim_id == id,
    ensures
        exists|i: int| first_claim_at(s, id, i),
    decreases j,
{
    if forall|q: int| 0 <= q < j ==> s[q].claim_id != id {
        assert(first_claim_at(s, id, j));
    } else {
        let q = choose|q: int| 0 <= q < j && s[q].claim_id == id;
        lemma_first_claim_exists(s, id, q);
    }
}

/// The index of the first claim with id `id`.
fn position_of_claim(claims: &Vec<AchievementClaim>, id: &str) -> (r: Option<usize>)
    ensures
        r matches Some(i) ==> claim_index(claims_view(claims@), id@) == Some(i as int),
        r is None ==> claim_index(claims_view(claims@), id@) is None,
        r is None ==> forall|j: int|
            0 <= j < claims@.len() ==> claims@[j].claim_id@ != id@,
{
    let ghost s = claims_view(claims@);
    let mut i: usize = 0;
    while i < claims.len()
        invariant
            i <= claims@.len(),
            s == claims_view(claims@),
            forall|j: int| 0 <= j < i ==> claims@[j].claim_id@ != id@,
        decreases claims@.len() - i,
    {
        if str_eq(claims[i].claim_id.as_str(), id) {
            proof {
                assert(first_claim_at(s, id@, i as int));
                let k = choose|k: int| first_claim_at(s, id@, k);
                assert(k == i) by {
                    if k < i {
                        assert(s[k].claim_id == claims@[k].claim_id@);
                    } else if k > i {
                        assert(s[i as int].claim_id == id@);
                    }
                }
            }
            return Some(i);
        }
        i = i + 1;
    }
    proof {
        assert forall|k: int| !first_claim_at(s, id@, k) by {
            if 0 <= k < s.len() {
                assert(s[k].claim_id == claims@[k].claim_id@);
            }
        }
    }
    None
}

// ---------------------------------------------------------------------
// Storage.
// ---------------------------------------------------------------------

/// Where a player's blocks and claims are persisted, by the player's UUID
/// (as its 128 bits).
pub trait LedgerStorage {
    /// Appends a block to the player's log.
    fn append_block(&self, player_id: u128, block: &Block) -> Result<(), ProfileError>;

    /// All blocks of the player's log, oldest first.
    fn load_blocks(&self, player_id: u128) -> Result<Vec<Block>, ProfileError>;

    /// The players that have a log.
    fn list_player_ids(&self) -> Result<Vec<u128>, ProfileError>;

    /// The player's stored claims.
    fn load_achievement_claims(&self, player_id: u128) -> Result<Vec<AchievementClaim>, ProfileError>;

    /// Replaces the player's stored claims.
    fn save_achievement_claims(&self, player_id: u128, claims: &[AchievementClaim]) -> Result<
        (),
        ProfileError,
    >;
}


/// What the service hands to its storage.
pub enum StorageWrite {
    /// A block appended to the log of a player.
    AppendBlock { player: u128, block: Block },
    /// The claims that replace those stored for a player.
    SaveClaims { player: u128, claims: Vec<AchievementClaim> },
}

/// A write the service handed to its storage and what the storage answered.
pub struct StorageCall {
    pub write: StorageWrite,
    pub result: Result<(), ProfileError>,
}

/// A read the service made of its storage and what the storage answered.
pub enum StorageRead {
    /// The players that have a log.
    ListPlayers { result: Result<Vec<u128>, ProfileError> },
    /// The blocks of a player's log.
    LoadBlocks { player: u128, result: Result<Vec<Block>, ProfileError> },
    /// The claims stored for a player.
    LoadClaims { player: u128, result: Result<Vec<AchievementClaim>, ProfileError> },
}

/// The player a load of blocks or claims is for.
pub open spec fn read_player(r: StorageRead) -> u128 {
    match r {
        StorageRead::LoadBlocks { player, .. } => player,
        StorageRead::LoadClaims { player, .. } => player,
        StorageRead::ListPlayers { .. } => 0,
    }
}

/// The blocks a load of blocks gave, `None` where it failed.
pub open spec fn loaded_blocks(r: StorageRead) -> Option<Vec<Block>> {
    match r {
        StorageRead::LoadBlocks { result: Ok(b), .. } => Some(b),
        _ => None,
    }
}

/// The claims a load of claims gave, `None` where it failed.
pub open spec fn loaded_claims(r: StorageRead) -> Option<Vec<AchievementClaim>> {
    match r {
        StorageRead::LoadClaims { result: Ok(c), .. } => Some(c),
        _ => None,
    }
}

/// `loads` is, for each id of `ids` in order, a load of its blocks and
/// then a load of its claims.
pub open spec fn loads_follow(loads: Seq<StorageRead>, ids: Seq<u128>) -> bool {
    &&& loads.len() == 2 * ids.len()
    &&& forall|k: int| 0 <= k < ids.len() ==> {
        &&& (#[trigger] loads[2 * k]) is LoadBlocks
        &&& loads[2 * k + 1] is LoadClaims
        &&& read_player(loads[2 * k]) == ids[k]
        &&& read_player(loads[2 * k + 1]) == ids[k]
    }
}

/// The players the loads in `loads` give, one per pair of loads: the
/// id, the blocks loaded and the claims loaded.
pub open spec fn players_of(loads: Seq<StorageRead>) -> Seq<LoadedPlayer> {
    Seq::new(
        loads.len() / 2,
        |k: int|
            LoadedPlayer {
                id: read_player(loads[2 * k]),
                blocks: loaded_blocks(loads[2 * k]),
                claims: loaded_claims(loads[2 * k + 1]),
            },
    )
}

/// `w` appends `block` to the log of `player`.
pub open spec fn appends(w: StorageWrite, player: u128, block: Block) -> bool {
    w matches StorageWrite::AppendBlock { player: p, block: b } && p == player && b == block
}

/// `w` saves `claims` as the claims of `player`.
pub open spec fn saves(w: StorageWrite, player: u128, claims: Seq<AchievementClaimView>) -> bool {
    w matches StorageWrite::SaveClaims { player: p, claims: c } && p == player && claims_view(c@)
        == claims
}

/// The calls in `added` are the writes of `planned`, in order, made one
/// after another as long as the storage answered `Ok`: every planned write
/// is made unless an earlier one was refused, and none after a refusal.
pub open spec fn made_in_order(added: Seq<StorageCall>, planned: Seq<spec_fn(StorageWrite) -> bool>) -> bool
    decreases planned.len(),
{
    if planned.len() == 0 {
        added.len() == 0
    } else {
        &&& added.len() >= 1
        &&& (planned[0])(added[0].write)
        &&& if added[0].result is Ok {
            made_in_order(added.drop_first(), planned.drop_first())
        } else {
            added.len() == 1
        }
    }
}

/// The answer `r` follows the storage's answer to the last call in
/// `added`: its error where it refused, success where it accepted.
pub open spec fn answered_as<T>(added: Seq<StorageCall>, r: Result<T, ProfileError>) -> bool {
    added.len() > 0 ==> match added.last().result {
        Err(e) => r matches Err(x) && x == e,
        Ok(_) => r is Ok,
    }
}

/// `after` is `before` followed by the calls of `planned` as
/// `made_in_order` says, and `r` answers as the last of them did.
pub open spec fn storage_answered<T>(
    before: Seq<StorageCall>,
    after: Seq<StorageCall>,
    planned: Seq<spec_fn(StorageWrite) -> bool>,
    r: Result<T, ProfileError>,
) -> bool {
    &&& before.len() <= after.len()
    &&& after.subrange(0, before.len() as int) == before
    &&& made_in_order(after.subrange(before.len() as int, after.len() as int), planned)
    &&& answered_as(after.subrange(before.len() as int, after.len() as int), r)
}

/// The write appending `block` to the log of the player `player_id`
/// names, when it names one.
pub open spec fn append_plan(player_id: Seq<char>, block: Block) -> Seq<spec_fn(StorageWrite) -> bool> {
    match uuid_bits_of(player_id) {
        Some(id) => seq![|w: StorageWrite| appends(w, id, block)],
        None => Seq::empty(),
    }
}

/// No call made: the calls are as they were, whatever was planned for
/// a player no UUID names.
proof fn lemma_no_calls(before: Seq<StorageCall>)
    ensures
        before.subrange(0, before.len() as int) == before,
        before.subrange(before.len() as int, before.len() as int) == Seq::<StorageCall>::empty(),
        made_in_order(Seq::<StorageCall>::empty(), Seq::<spec_fn(StorageWrite) -> bool>::empty()),
{
    assert(before.subrange(0, before.len() as int) =~= before);
    assert(before.subrange(before.len() as int, before.len() as int) =~= Seq::<StorageCall>::empty());
}

/// One call made, the single write planned.
proof fn lemma_one_call(before: Seq<StorageCall>, call: StorageCall, plan: Seq<spec_fn(StorageWrite) -> bool>)
    requires
        plan.len() == 1,
        (plan[0])(call.write),
    ensures
        ({
            let after = before.push(call);
            &&& after.subrange(0, before.len() as int) == before
            &&& after.subrange(before.len() as int, after.len() as int) == seq![call]
            &&& made_in_order(seq![call], plan)
        }),
{
    let after = before.push(call);
    assert(after.subrange(0, before.len() as int) =~= before);
    assert(after.subrange(before.len() as int, after.len() as int) =~= seq![call]);
    assert(seq![call].drop_first() =~= Seq::<StorageCall>::empty());
    assert(plan.drop_first() =~= Seq::<spec_fn(StorageWrite) -> bool>::empty());
    reveal_with_fuel(made_in_order, 2);
}

/// Calls made after others that were all accepted extend the plan.
proof fn lemma_made_concat(
    a1: Seq<StorageCall>,
    a2: Seq<StorageCall>,
    p1: Seq<spec_fn(StorageWrite) -> bool>,
    p2: Seq<spec_fn(StorageWrite) -> bool>,
)
    requires
        made_in_order(a1, p1),
        a1.len() > 0 ==> a1.last().result is Ok,
        made_in_order(a2, p2),
    ensures
        made_in_order(a1 + a2, p1 + p2),
    decreases p1.len(),
{
    if p1.len() == 0 {
        assert(a1 + a2 =~= a2);
        assert(p1 + p2 =~= p2);
    } else {
        if a1[0].result is Ok {
            lemma_made_concat(a1.drop_first(), a2, p1.drop_first(), p2);
            assert((a1 + a2).drop_first() =~= a1.drop_first() + a2);
            assert((p1 + p2).drop_first() =~= p1.drop_first() + p2);
        } else {
            assert(a1.len() == 1);
        }
        assert((a1 + a2)[0] == a1[0]);
        assert((p1 + p2)[0] == p1[0]);
    }
}

/// Calls that stopped at a refusal stay a made plan whatever was planned
/// after it.
proof fn lemma_made_stop(a: Seq<StorageCall>, p1: Seq<spec_fn(StorageWrite) -> bool>, p2: Seq<spec_fn(StorageWrite) -> bool>)
    requires
        made_in_order(a, p1),
        a.len() > 0,
        a.last().result is Err,
    ensures
        made_in_order(a, p1 + p2),
    decreases p1.len(),
{
    if p1.len() > 0 {
        assert((p1 + p2)[0] == p1[0]);
        if a[0].result is Ok {
            lemma_made_stop(a.drop_first(), p1.drop_first(), p2);
            assert((p1 + p2).drop_first() =~= p1.drop_first() + p2);
        }
    }
}

/// Two runs of calls, the first all accepted, make the two plans in turn
/// and are answered as the second.
proof fn lemma_answered_then<T, U>(
    b0: Seq<StorageCall>,
    b1: Seq<StorageCall>,
    b2: Seq<StorageCall>,
    p1: Seq<spec_fn(StorageWrite) -> bool>,
    p2: Seq<spec_fn(StorageWrite) -> bool>,
    r1: Result<T, ProfileError>,
    r2: Result<U, ProfileError>,
)
    requires
        storage_answered(b0, b1, p1, r1),
        r1 is Ok,
        storage_answered(b1, b2, p2, r2),
        b1.len() == b0.len() ==> p1.len() == 0,
        b2.len() == b1.len() ==> p2.len() == 0 && b1.len() == b0.len(),
    ensures
        storage_answered(b0, b2, p1 + p2, r2),
        b2.len() == b0.len() ==> (p1 + p2).len() == 0,
{
    let a1 = b1.subrange(b0.len() as int, b1.len() as int);
    let a2 = b2.subrange(b1.len() as int, b2.len() as int);
    assert(b2.subrange(0, b1.len() as int) == b1);
    assert(b2.subrange(0, b0.len() as int) =~= b1.subrange(0, b0.len() as int));
    assert(b2.subrange(b0.len() as int, b2.len() as int) =~= a1 + a2);
    if a1.len() > 0 {
        if a1.last().result is Err {
            assert(r1 is Err);
        }
    }
    lemma_made_concat(a1, a2, p1, p2);
    if a2.len() == 0 {
        assert(a1 + a2 =~= a1);
        if a1.len() > 0 {
            assert(p2.len() == 0);
        }
    } else {
        assert((a1 + a2).last() == a2.last());
    }
}

/// An answer that succeeds and fails with the same error as another
/// answers the calls as that one does.
proof fn lemma_answer_same<T, U>(
    b0: Seq<StorageCall>,
    b1: Seq<StorageCall>,
    p: Seq<spec_fn(StorageWrite) -> bool>,
    r1: Result<T, ProfileError>,
    r2: Result<U, ProfileError>,
)
    requires
        storage_answered(b0, b1, p, r1),
        r1 is Ok <==> r2 is Ok,
        r1 matches Err(e) ==> r2 matches Err(x) && x == e,
    ensures
        storage_answered(b0, b1, p, r2),
{
}

/// Calls that ended in a refusal answer the whole plan.
proof fn lemma_answered_stop<T, U>(
    b0: Seq<StorageCall>,
    b1: Seq<StorageCall>,
    p1: Seq<spec_fn(StorageWrite) -> bool>,
    p2: Seq<spec_fn(StorageWrite) -> bool>,
    r1: Result<T, ProfileError>,
    r: Result<U, ProfileError>,
)
    requires
        storage_answered(b0, b1, p1, r1),
        r1 matches Err(e) && r matches Err(x) && x == e,
        b1.len() > b0.len(),
    ensures
        storage_answered(b0, b1, p1 + p2, r),
{
    let a = b1.subrange(b0.len() as int, b1.len() as int);
    lemma_made_stop(a, p1, p2);
}

/// The write appending the newest block of `chain` to the log of the
/// player `player_id` names, when it names one and the chain has a block.
pub open spec fn block_plan(player_id: Seq<char>, chain: Seq<Block>) -> Seq<spec_fn(StorageWrite) -> bool> {
    if chain.len() > 0 {
        append_plan(player_id, chain.last())
    } else {
        Seq::empty()
    }
}

/// The write saving `claims` for the player `player_id` names, when it
/// names one.
pub open spec fn save_plan(player_id: Seq<char>, claims: Seq<AchievementClaimView>) -> Seq<
    spec_fn(StorageWrite) -> bool,
> {
    match uuid_bits_of(player_id) {
        Some(id) => seq![|w: StorageWrite| saves(w, id, claims)],
        None => Seq::empty(),
    }
}

// ---------------------------------------------------------------------
// Ledger entries the service writes.
// ---------------------------------------------------------------------

/// `new` is `old` with one more block holding a single transaction, mined
/// after `old`'s newest block; an empty chain is left as it is.
pub open spec fn appended_one(old: Seq<Block>, new: Seq<Block>) -> bool {
    if old.len() == 0 {
        new == old
    } else {
        let b = new.last();
        &&& new == old.push(b)
        &&& b.previous_block_hash@ == old.last().block_hash@
        &&& b.transactions@.len() == 1
        &&& timestamp_text(b.timestamp@)
        &&& b.app_version@ == APP_VERSION@
        &&& hash_consistent(b)
        &&& (meets_work(b.block_hash@) || b.nonce == u64::MAX)
    }
}

/// The transaction that logs `p` as changed.
pub open spec fn profile_change_tx(t: Transaction, p: PlayerProfile) -> bool {
    &&& uuid_text(t.transaction_id@)
    &&& t.player_id@ == p.player_id@
    &&& t.transaction_type@ == "profile_change"@
    &&& timestamp_text(t.timestamp@)
    &&& t.data_hash@ == sha256_hex_of(profile_json(Seq::empty(), p))
    &&& t.signature@.len() == 0
    &&& t.details@ == TransactionDataView::ProfileChange(t.data_hash@, p@)
}

/// The profile a new player starts with.
pub open spec fn fresh_profile(player_id: Seq<char>, name: Seq<char>) -> PlayerProfileView {
    PlayerProfileView {
        player_id,
        name,
        dim: DEFAULT_DIM,
        lanes: Seq::new(lanes_for(DEFAULT_DIM as int) as nat, |l: int| 0u64),
    }
}

impl PlayerProfile {
    /// A profile with an all-zero vector of the default dimension.
    pub fn new(player_id: String, name: String) -> (r: Self)
        ensures
            r@ == fresh_profile(player_id@, name@),
            r.profile_vec.well_formed(),
    {
        PlayerProfile { player_id, name, profile_vec: BitVec::new(DEFAULT_DIM) }
    }

    /// Replaces the profile's vector.
    pub fn set_vector(&mut self, vec: BitVec)
        ensures
            final(self).player_id@ == old(self).player_id@,
            final(self).name@ == old(self).name@,
            final(self).profile_vec == vec,
    {
        self.profile_vec = vec;
    }
}

/// The rewards of `k` in `m`, or none.
pub open spec fn reward_or_empty(m: Map<Seq<char>, PlayerRewardStateView>, k: Seq<char>) -> PlayerRewardStateView {
    if m.contains_key(k) {
        m[k]
    } else {
        PlayerRewardStateView { entitlements: Seq::empty(), achievements: Seq::empty() }
    }
}

/// The entitlement that awarding `def` writes.
pub open spec fn entitlement_award(
    def: EntitlementDefinition,
    quantity: u32,
    expiration_date: Option<Seq<char>>,
) -> EntitlementView {
    EntitlementView {
        developer: def.developer@,
        game: def.game@,
        entitlement_id: def.entitlement_id@,
        version: def.version,
        item_type: def.item_type@,
        item_id: def.item_id@,
        quantity,
        metadata: def.description@,
        expiration_date,
    }
}

/// The achievement that awarding `d` at `earned` writes: its name, its
/// accomplishment summary (or, where that is empty, its description) as
/// criteria and its award metadata as JSON.
pub open spec fn achievement_award(d: AchievementDefinitionView, earned: Seq<char>) -> AchievementView {
    AchievementView {
        developer: d.developer,
        game: d.game,
        achievement_id: d.achievement_id,
        version: d.version,
        achievement_name: d.name,
        criteria: if d.summary.len() == 0 {
            d.description
        } else {
            d.summary
        },
        timestamp_earned: earned,
        metadata: award_metadata_text(
            d.category,
            d.policy.visibility,
            d.policy.repeatability,
            d.policy.issuance_mode,
        ),
    }
}

/// A transaction of kind `kind` for `player_id`, with fresh id and time.
pub open spec fn fresh_tx(t: Transaction, player_id: Seq<char>, kind: Seq<char>) -> bool {
    &&& uuid_text(t.transaction_id@)
    &&& t.player_id@ == player_id
    &&& t.transaction_type@ == kind
    &&& timestamp_text(t.timestamp@)
    &&& t.signature@.len() == 0
}

/// The transaction that awards the entitlement `ev` to `player_id`.
pub open spec fn entitlement_tx(t: Transaction, player_id: Seq<char>, ev: EntitlementView) -> bool {
    &&& fresh_tx(t, player_id, "entitlement"@)
    &&& t.details matches TransactionData::Entitlement(e)
    &&& e@ == ev
    &&& t.data_hash@ == sha256_hex_of(entitlement_json(Seq::empty(), e))
}

/// The transaction that awards the achievement `av` to `player_id`.
pub open spec fn achievement_tx(t: Transaction, player_id: Seq<char>, av: AchievementView) -> bool {
    &&& fresh_tx(t, player_id, "achievement"@)
    &&& t.details matches TransactionData::Achievement(a)
    &&& a@ == av
    &&& t.data_hash@ == sha256_hex_of(achievement_json(Seq::empty(), a))
}

/// `av` is what awarding `d` writes, at a time of RFC 3339 shape.
pub open spec fn achievement_awarded(av: AchievementView, d: AchievementDefinitionView) -> bool {
    &&& timestamp_text(av.timestamp_earned)
    &&& av == achievement_award(d, av.timestamp_earned)
}

/// The pending claim that submitting `c` at `submitted_at` stores.
pub open spec fn pending_claim(c: AchievementClaimInput, submitted_at: Seq<char>) -> AchievementClaimView {
    AchievementClaimView {
        developer: c.developer@,
        game: c.game@,
        achievement_id: c.achievement_id@,
        version: c.version,
        claim_id: c.claim_id@,
        session_id: c.session_id@,
        client_sequence: c.client_sequence,
        claimed_at: c.claimed_at@,
        evidence: opt_view(c.evidence),
        submitted_at,
        status: AchievementClaimStatus::Pending,
        reviewed_at: None,
        reviewer: None,
        review_note: None,
        awarded_transaction_id: None,
        awarded_block_hash: None,
        canonical_envelope: None,
        acknowledgement: None,
    }
}

/// The claims of `k` in `m`, or none.
pub open spec fn claims_or_empty(m: Map<Seq<char>, Seq<AchievementClaimView>>, k: Seq<char>) -> Seq<AchievementClaimView> {
    if m.contains_key(k) {
        m[k]
    } else {
        Seq::empty()
    }
}

/// The error that says the player id is no UUID.
pub open spec fn invalid_player_id(e: ProfileError) -> bool {
    e.kind == ProfileErrorKind::InvalidInput && e.message@ == "invalid player id"@
}

/// `t` logs a profile whose view is `pv`.
pub open spec fn logs_profile(t: Transaction, pv: PlayerProfileView) -> bool {
    &&& t.details matches TransactionData::ProfileChange(c)
    &&& profile_change_tx(t, c.profile)
    &&& c.profile@ == pv
}

/// `p` with its vector replaced.
pub open spec fn with_vector(p: PlayerProfileView, dim: usize, lanes: Seq<u64>) -> PlayerProfileView {
    PlayerProfileView { player_id: p.player_id, name: p.name, dim, lanes }
}

/// Lane-wise XOR over the lanes both vectors have.
pub open spec fn xor_lanes(a: Seq<u64>, b: Seq<u64>) -> Seq<u64> {
    Seq::new(
        if a.len() <= b.len() {
            a.len()
        } else {
            b.len()
        },
        |l: int| a[l] ^ b[l],
    )
}

/// How the authority answers a canonical claim under the definition it
/// found, where policy alone decides: the envelope must validate, the
/// definition must exist and match the record's identity and digest,
/// allow claim review, not be repeatable, get the evidence it requires,
/// the event it names and a value at its threshold (one where unset; a
/// zero threshold is never met). `None` where the claim passes.
pub open spec fn policy_decision(
    e: EabClaimEnvelopeView,
    d: Option<AchievementDefinitionView>,
) -> Option<(EabClaimDisposition, EabClaimDecisionCode)> {
    match envelope_fault(e) {
        Some(err) => Some(
            (
                EabClaimDisposition::Rejected,
                match err {
                    EabClaimEnvelopeErrorView::NotReady(_) => EabClaimDecisionCode::ClaimNotReady,
                    _ => EabClaimDecisionCode::InvalidEnvelope,
                },
            ),
        ),
        None => match d {
            None => Some((EabClaimDisposition::Conflict, EabClaimDecisionCode::DefinitionNotFound)),
            Some(d) => {
                let r = e.record;
                let threshold = match d.threshold {
                    Some(t) => t,
                    None => 1,
                };
                if r.developer != d.developer || r.game != d.game || r.achievement_id
                    != d.achievement_id || r.version != d.version {
                    Some(
                        (
                            EabClaimDisposition::Conflict,
                            EabClaimDecisionCode::DefinitionIdentityMismatch,
                        ),
                    )
                } else if r.definition_digest != sha256_hex_of(definition_json(d)) {
                    Some(
                        (
                            EabClaimDisposition::Conflict,
                            EabClaimDecisionCode::DefinitionDigestMismatch,
                        ),
                    )
                } else if !mode_allows_claim_review(d.policy.issuance_mode) {
                    Some(
                        (
                            EabClaimDisposition::Rejected,
                            EabClaimDecisionCode::IssuanceModeDisallowsClaim,
                        ),
                    )
                } else if d.policy.repeatability == AchievementRepeatability::Repeatable {
                    Some(
                        (EabClaimDisposition::Rejected, EabClaimDecisionCode::RepeatableNotSupported),
                    )
                } else if d.requires_evidence && r.evidence is None {
                    Some((EabClaimDisposition::Rejected, EabClaimDecisionCode::EvidenceRequired))
                } else if d.event_key != Some(r.event_key) {
                    Some((EabClaimDisposition::Rejected, EabClaimDecisionCode::EventMismatch))
                } else if threshold == 0 || r.event_value < threshold {
                    Some((EabClaimDisposition::Rejected, EabClaimDecisionCode::ThresholdNotMet))
                } else {
                    None
                }
            },
        },
    }
}

/// A definition by its view, if any.
pub open spec fn definition_view(d: Option<&AchievementDefinition>) -> Option<AchievementDefinitionView> {
    match d {
        Some(v) => Some(v@),
        None => None,
    }
}

/// Applies the definition's policy to a canonical claim; `None` where the
/// claim passes.
pub fn canonical_claim_policy_decision(
    envelope: &EabClaimEnvelope,
    definition: Option<&AchievementDefinition>,
) -> (r: Option<(EabClaimDisposition, EabClaimDecisionCode)>)
    ensures
        r == policy_decision(envelope@, definition_view(definition)),
{
    if let Err(error) = envelope.validate() {
        let code = match error {
            EabClaimEnvelopeError::NotReady(_) => EabClaimDecisionCode::ClaimNotReady,
            EabClaimEnvelopeError::UnsupportedSchemaVersion(_) => EabClaimDecisionCode::InvalidEnvelope,
            EabClaimEnvelopeError::InvalidRecord(_) => EabClaimDecisionCode::InvalidEnvelope,
        };
        return Some((EabClaimDisposition::Rejected, code));
    }
    let definition = match definition {
        Some(d) => d,
        None => {
            return Some((EabClaimDisposition::Conflict, EabClaimDecisionCode::DefinitionNotFound));
        },
    };
    let record = &envelope.record;
    if !str_eq(record.developer.as_str(), definition.developer()) || !str_eq(
        record.game.as_str(),
        definition.game(),
    ) || !str_eq(record.achievement_id.as_str(), definition.achievement_id()) || record.version
        != definition.version() {
        return Some(
            (EabClaimDisposition::Conflict, EabClaimDecisionCode::DefinitionIdentityMismatch),
        );
    }
    let expected_digest = match definition_digest(definition) {
        Ok(d) => d,
        Err(_) => {
            return Some(
                (EabClaimDisposition::Conflict, EabClaimDecisionCode::DefinitionDigestMismatch),
            );
        },
    };
    if !str_eq(record.definition_digest.as_str(), expected_digest.as_str()) {
        return Some((EabClaimDisposition::Conflict, EabClaimDecisionCode::DefinitionDigestMismatch));
    }
    if !definition.allows_claim_review() {
        return Some(
            (EabClaimDisposition::Rejected, EabClaimDecisionCode::IssuanceModeDisallowsClaim),
        );
    }
    if definition.is_repeatable() {
        return Some((EabClaimDisposition::Rejected, EabClaimDecisionCode::RepeatableNotSupported));
    }
    if definition.accomplishment.requires_evidence && record.evidence.is_none() {
        return Some((EabClaimDisposition::Rejected, EabClaimDecisionCode::EvidenceRequired));
    }
    let event_matches = match &definition.accomplishment.event_key {
        Some(k) => str_eq(k.as_str(), record.event_key.as_str()),
        None => false,
    };
    if !event_matches {
        return Some((EabClaimDisposition::Rejected, EabClaimDecisionCode::EventMismatch));
    }
    let threshold = match definition.accomplishment.threshold {
        Some(t) => t,
        None => 1,
    };
    if threshold == 0 || record.event_value < threshold {
        return Some((EabClaimDisposition::Rejected, EabClaimDecisionCode::ThresholdNotMet));
    }
    None
}

/// `a` acknowledges the envelope `e` with this decision, first observed
/// at `first` and decided at a time of RFC 3339 shape.
pub open spec fn acknowledges(
    a: EabClaimAcknowledgementView,
    e: EabClaimEnvelopeView,
    disposition: EabClaimDisposition,
    code: EabClaimDecisionCode,
    first: Seq<char>,
    award: Option<EabAwardReferenceView>,
) -> bool {
    &&& a.schema_version == EAB_CLAIM_ACKNOWLEDGEMENT_SCHEMA_VERSION
    &&& a.claim_id == e.record.claim_id
    &&& a.developer == e.record.developer
    &&& a.game == e.record.game
    &&& a.achievement_id == e.record.achievement_id
    &&& a.version == e.record.version
    &&& a.disposition == disposition
    &&& a.code == code
    &&& a.first_observed_at == first
    &&& a.decided_at matches Some(t) && timestamp_text(t)
    &&& a.award == award
}

/// The claim the authority stores for the envelope `e` it answered with `a`.
pub open spec fn canonical_claim(e: EabClaimEnvelopeView, a: EabClaimAcknowledgementView) -> AchievementClaimView {
    let r = e.record;
    AchievementClaimView {
        developer: r.developer,
        game: r.game,
        achievement_id: r.achievement_id,
        version: r.version,
        claim_id: r.claim_id,
        session_id: r.session_id,
        client_sequence: r.client_sequence,
        claimed_at: r.earned_at_local,
        evidence: r.evidence,
        submitted_at: a.first_observed_at,
        status: if a.disposition == EabClaimDisposition::Acknowledged {
            AchievementClaimStatus::Promoted
        } else {
            AchievementClaimStatus::Rejected
        },
        reviewed_at: a.decided_at,
        reviewer: Some("eab-authority"@),
        review_note: Some(decision_code_name(a.code)),
        awarded_transaction_id: match a.award {
            Some(w) => Some(w.transaction_id),
            None => None,
        },
        awarded_block_hash: match a.award {
            Some(w) => Some(w.block_hash),
            None => None,
        },
        canonical_envelope: Some(e),
        acknowledgement: Some(a),
    }
}

/// `t` awards `player_id` the achievement identified in `d`.
pub open spec fn awards_achievement_of(t: Transaction, player_id: Seq<char>, d: AchievementDefinitionView) -> bool {
    &&& t.player_id@ == player_id
    &&& t.details matches TransactionData::Achievement(a)
    &&& a.developer@ == d.developer
    &&& a.game@ == d.game
    &&& a.achievement_id@ == d.achievement_id
}

/// The index of the newest transaction in `txs` that awards `player_id`
/// the achievement of `d`.
pub open spec fn latest_award_tx(txs: Seq<Transaction>, player_id: Seq<char>, d: AchievementDefinitionView) -> Option<int>
    decreases txs.len(),
{
    if txs.len() == 0 {
        None
    } else if awards_achievement_of(txs.last(), player_id, d) {
        Some(txs.len() - 1)
    } else {
        latest_award_tx(txs.drop_last(), player_id, d)
    }
}

/// The newest award on the chain of the achievement of `d` to `player_id`:
/// its transaction id and its block's hash.
pub open spec fn latest_award(chain: Seq<Block>, player_id: Seq<char>, d: AchievementDefinitionView) -> Option<EabAwardReferenceView>
    decreases chain.len(),
{
    if chain.len() == 0 {
        None
    } else {
        let b = chain.last();
        match latest_award_tx(b.transactions@, player_id, d) {
            Some(i) => Some(
                EabAwardReferenceView {
                    transaction_id: b.transactions@[i].transaction_id@,
                    block_hash: b.block_hash@,
                },
            ),
            None => latest_award(chain.drop_last(), player_id, d),
        }
    }
}

/// The reference to the newest transaction of the newest block.
pub open spec fn newest_award_ref(chain: Seq<Block>) -> EabAwardReferenceView {
    EabAwardReferenceView {
        transaction_id: chain.last().transactions@.last().transaction_id@,
        block_hash: chain.last().block_hash@,
    }
}

/// The acknowledgement of `envelope` with this decision.
fn claim_acknowledgement(
    envelope: &EabClaimEnvelope,
    disposition: EabClaimDisposition,
    code: EabClaimDecisionCode,
    first_observed_at: String,
    award: Option<EabAwardReference>,
) -> (r: EabClaimAcknowledgement)
    ensures
        acknowledges(r@, envelope@, disposition, code, first_observed_at@, award_view(award)),
{
    let record = &envelope.record;
    EabClaimAcknowledgement {
        schema_version: EAB_CLAIM_ACKNOWLEDGEMENT_SCHEMA_VERSION,
        claim_id: copy_string(&record.claim_id),
        developer: copy_string(&record.developer),
        game: copy_string(&record.game),
        achievement_id: copy_string(&record.achievement_id),
        version: record.version,
        disposition,
        code,
        first_observed_at,
        decided_at: Some(now_rfc3339()),
        award,
    }
}

/// Rewards `r1` and chain `c1` are `r0` and `c0` with the achievement of
/// `d` awarded to `player_id`: added to the player's rewards and logged in
/// a block of its own.
#[verifier::opaque]
pub open spec fn award_step(
    r0: Map<Seq<char>, PlayerRewardStateView>,
    c0: Seq<Block>,
    r1: Map<Seq<char>, PlayerRewardStateView>,
    c1: Seq<Block>,
    player_id: Seq<char>,
    d: AchievementDefinitionView,
) -> bool {
    let before = reward_or_empty(r0, player_id);
    let av = r1[player_id].achievements.last();
    &&& achievement_awarded(av, d)
    &&& r1 == r0.insert(
        player_id,
        PlayerRewardStateView {
            entitlements: before.entitlements,
            achievements: before.achievements.push(av),
        },
    )
    &&& appended_one(c0, c1)
    &&& c0.len() > 0 ==> achievement_tx(c1.last().transactions@[0], player_id, av)
}

/// `c` with a decision recorded on it: the new status, when it was
/// decided, who decided and the note.
pub open spec fn reviewed_claim(
    c: AchievementClaimView,
    status: AchievementClaimStatus,
    reviewed_at: Seq<char>,
    reviewer: Seq<char>,
    note: Option<Seq<char>>,
) -> AchievementClaimView {
    AchievementClaimView {
        status,
        reviewed_at: Some(reviewed_at),
        reviewer: Some(reviewer),
        review_note: note,
        ..c
    }
}

/// `c` with the ids of the award that promoted it.
pub open spec fn with_award_ids(c: AchievementClaimView, w: EabAwardReferenceView) -> AchievementClaimView {
    AchievementClaimView {
        awarded_transaction_id: Some(w.transaction_id),
        awarded_block_hash: Some(w.block_hash),
        ..c
    }
}

/// The error of kind `kind` with message `m`.
pub open spec fn error_is(e: ProfileError, kind: ProfileErrorKind, m: Seq<char>) -> bool {
    e.kind == kind && e.message@ == m
}

/// The hash that the next block must name after the accepted `v`: that
/// of the newest, or the genesis block's `"0"`.
pub open spec fn tip_hash(v: Seq<Block>) -> Seq<char> {
    if v.len() == 0 {
        seq!['0']
    } else {
        v.last().block_hash@
    }
}

/// A player's blocks split, in order, into those that extend the chain
/// from the genesis block and those quarantined.
pub open spec fn split_blocks(blocks: Seq<Block>) -> (Seq<Block>, Seq<Block>)
    decreases blocks.len(),
{
    if blocks.len() == 0 {
        (Seq::empty(), Seq::empty())
    } else {
        let (v, q) = split_blocks(blocks.drop_last());
        let b = blocks.last();
        if b.previous_block_hash@ == tip_hash(v) && hash_consistent(b) {
            (v.push(b), q)
        } else {
            (v, q.push(b))
        }
    }
}

/// Extending a valid chain keeps it valid exactly when the new block
/// names the newest hash and records its own.
proof fn lemma_chain_extend(c: Seq<Block>, b: Block)
    requires
        c.len() > 0,
        chain_valid(c),
    ensures
        chain_valid(c.push(b)) == (b.previous_block_hash@ == c.last().block_hash@ && hash_consistent(b)),
{
    let d = c.push(b);
    if b.previous_block_hash@ == c.last().block_hash@ && hash_consistent(b) {
        assert forall|i: int| 1 <= i < d.len() implies {
            &&& (#[trigger] d[i]).previous_block_hash@ == d[i - 1].block_hash@
            &&& hash_consistent(d[i])
        } by {
            if i < c.len() {
                assert(d[i] == c[i] && d[i - 1] == c[i - 1]);
            }
        }
    } else {
        let i = c.len() as int;
        assert(d[i] == b);
    }
}

/// Splits a player's blocks into those that extend a chain from the
/// genesis block and those quarantined, in order.
pub fn verify_player_blocks(blocks: Vec<Block>) -> (r: (Vec<Block>, Vec<Block>))
    ensures
        (r.0@, r.1@) == split_blocks(blocks@),
{
    let ghost bs = blocks@;
    let n = blocks.len();
    let mut remaining = blocks;
    let mut quarantined: Vec<Block> = Vec::new();
    let mut chain = Blockchain::new();
    let ghost g = chain.chain@[0];
    let mut k: usize = 0;
    while remaining.len() > 0
        invariant
            k <= bs.len(),
            n == bs.len(),
            remaining@ == bs.subrange(k as int, bs.len() as int),
            is_genesis(g),
            chain.chain@ == seq![g] + split_blocks(bs.subrange(0, k as int)).0,
            quarantined@ == split_blocks(bs.subrange(0, k as int)).1,
            chain_valid(chain.chain@),
        decreases remaining@.len(),
    {
        let block = remaining.remove(0);
        let ghost prefix = bs.subrange(0, k + 1);
        let ghost v = split_blocks(bs.subrange(0, k as int)).0;
        proof {
            assert(prefix.drop_last() =~= bs.subrange(0, k as int));
            assert(prefix.last() == block);
            assert(chain.chain@.last().block_hash@ == tip_hash(v)) by {
                if v.len() > 0 {
                    assert(chain.chain@.last() == v.last());
                }
            }
            lemma_chain_extend(chain.chain@, block);
        }
        chain.chain.push(block);
        if !chain.is_valid_chain() {
            let b = chain.chain.pop();
            match b {
                Some(b) => quarantined.push(b),
                None => {},
            }
            assert(chain.chain@ =~= seq![g] + v);
        } else {
            assert(chain.chain@ =~= seq![g] + v.push(block));
        }
        k = k + 1;
    }
    assert(bs.subrange(0, k as int) =~= bs);
    let _genesis = chain.chain.remove(0);
    assert(chain.chain@ =~= split_blocks(bs).0);
    (chain.chain, quarantined)
}

/// `a` comes before `b` in byte order, a proper prefix first.
pub open spec fn bytes_lt(a: Seq<u8>, b: Seq<u8>) -> bool
    decreases a.len(),
{
    if a.len() == 0 {
        b.len() > 0
    } else if b.len() == 0 {
        false
    } else if a[0] != b[0] {
        a[0] < b[0]
    } else {
        bytes_lt(a.drop_first(), b.drop_first())
    }
}

/// `a` comes before `b` in the order of `String`: that of their UTF-8.
pub open spec fn text_lt(a: Seq<char>, b: Seq<char>) -> bool {
    bytes_lt(encode_utf8(a), encode_utf8(b))
}

/// Whether `a` comes before `b` in the order of `String`.
pub fn text_less(a: &str, b: &str) -> (r: bool)
    ensures
        r == text_lt(a@, b@),
{
    let x = a.as_bytes();
    let y = b.as_bytes();
    let mut i: usize = 0;
    assert(x@.subrange(0, x@.len() as int) =~= x@);
    assert(y@.subrange(0, y@.len() as int) =~= y@);
    while i < x.len() && i < y.len()
        invariant
            i <= x@.len(),
            i <= y@.len(),
            x@ == encode_utf8(a@),
            y@ == encode_utf8(b@),
            bytes_lt(x@, y@) == bytes_lt(
                x@.subrange(i as int, x@.len() as int),
                y@.subrange(i as int, y@.len() as int),
            ),
        decreases x@.len() - i,
    {
        let ghost xs = x@.subrange(i as int, x@.len() as int);
        let ghost ys = y@.subrange(i as int, y@.len() as int);
        if x[i] != y[i] {
            assert(xs[0] == x@[i as int] && ys[0] == y@[i as int]);
            return x[i] < y[i];
        }
        assert(xs.drop_first() =~= x@.subrange(i + 1, x@.len() as int));
        assert(ys.drop_first() =~= y@.subrange(i + 1, y@.len() as int));
        i = i + 1;
    }
    assert(x@.subrange(i as int, x@.len() as int).len() == x@.len() - i);
    i < y.len()
}

/// `b` inserted into `sorted` after every block whose timestamp is not
/// later than its own.
pub open spec fn insert_by_time(sorted: Seq<Block>, b: Block) -> Seq<Block>
    decreases sorted.len(),
{
    if sorted.len() == 0 || !text_lt(b.timestamp@, sorted.last().timestamp@) {
        sorted.push(b)
    } else {
        insert_by_time(sorted.drop_last(), b).push(sorted.last())
    }
}

/// `s` sorted by timestamp, blocks with equal timestamps in their order
/// in `s` (a stable sort).
pub open spec fn sort_by_time(s: Seq<Block>) -> Seq<Block>
    decreases s.len(),
{
    if s.len() == 0 {
        s
    } else {
        insert_by_time(sort_by_time(s.drop_last()), s.last())
    }
}

proof fn lemma_insert_by_time(s: Seq<Block>, b: Block, j: int)
    requires
        0 <= j <= s.len(),
        forall|m: int| j <= m < s.len() ==> text_lt(b.timestamp@, #[trigger] s[m].timestamp@),
        j == 0 || !text_lt(b.timestamp@, s[j - 1].timestamp@),
    ensures
        insert_by_time(s, b) == s.insert(j, b),
    decreases s.len(),
{
    if j == s.len() {
        assert(s.insert(j, b) =~= s.push(b));
    } else {
        let t = s.drop_last();
        assert(text_lt(b.timestamp@, s[s.len() - 1].timestamp@));
        assert forall|m: int| j <= m < t.len() implies text_lt(b.timestamp@, #[trigger] t[m].timestamp@) by {
            assert(t[m] == s[m]);
        }
        if j > 0 {
            assert(t[j - 1] == s[j - 1]);
        }
        lemma_insert_by_time(t, b, j);
        assert(s.insert(j, b) =~= t.insert(j, b).push(s.last()));
    }
}

/// The blocks sorted by timestamp, stably.
fn sort_blocks_by_time(blocks: Vec<Block>) -> (r: Vec<Block>)
    ensures
        r@ == sort_by_time(blocks@),
{
    let ghost bs = blocks@;
    let n = blocks.len();
    let mut remaining = blocks;
    let mut sorted: Vec<Block> = Vec::new();
    let mut k: usize = 0;
    while remaining.len() > 0
        invariant
            k <= bs.len(),
            n == bs.len(),
            remaining@ == bs.subrange(k as int, bs.len() as int),
            sorted@ == sort_by_time(bs.subrange(0, k as int)),
        decreases remaining@.len(),
    {
        let block = remaining.remove(0);
        let ghost prefix = bs.subrange(0, k + 1);
        proof {
            assert(prefix.drop_last() =~= bs.subrange(0, k as int));
            assert(prefix.last() == block);
        }
        let mut j: usize = sorted.len();
        while j > 0 && text_less(block.timestamp.as_str(), sorted[j - 1].timestamp.as_str())
            invariant
                j <= sorted@.len(),
                forall|m: int|
                    j <= m < sorted@.len() ==> text_lt(block.timestamp@, #[trigger] sorted@[m].timestamp@),
            decreases j,
        {
            j = j - 1;
        }
        proof {
            lemma_insert_by_time(sorted@, block, j as int);
        }
        sorted.insert(j, block);
        k = k + 1;
    }
    assert(bs.subrange(0, k as int) =~= bs);
    sorted
}

/// `a` comes before `b` in storage order: by client sequence, then by
/// claim id.
pub open spec fn claim_before(a: AchievementClaim, b: AchievementClaim) -> bool {
    a.client_sequence < b.client_sequence || (a.client_sequence == b.client_sequence && text_lt(
        a.claim_id@,
        b.claim_id@,
    ))
}

/// `c` inserted into `sorted` after every claim that does not come after it.
pub open spec fn insert_claim(sorted: Seq<AchievementClaim>, c: AchievementClaim) -> Seq<AchievementClaim>
    decreases sorted.len(),
{
    if sorted.len() == 0 || !claim_before(c, sorted.last()) {
        sorted.push(c)
    } else {
        insert_claim(sorted.drop_last(), c).push(sorted.last())
    }
}

/// `s` in storage order, claims with equal keys in their order in `s`
/// (a stable sort).
pub open spec fn claims_in_order(s: Seq<AchievementClaim>) -> Seq<AchievementClaim>
    decreases s.len(),
{
    if s.len() == 0 {
        s
    } else {
        insert_claim(claims_in_order(s.drop_last()), s.last())
    }
}

proof fn lemma_insert_claim(s: Seq<AchievementClaim>, c: AchievementClaim, j: int)
    requires
        0 <= j <= s.len(),
        forall|m: int| j <= m < s.len() ==> claim_before(c, #[trigger] s[m]),
        j == 0 || !claim_before(c, s[j - 1]),
    ensures
        insert_claim(s, c) == s.insert(j, c),
    decreases s.len(),
{
    if j == s.len() {
        assert(s.insert(j, c) =~= s.push(c));
    } else {
        let t = s.drop_last();
        assert(claim_before(c, s[s.len() - 1]));
        assert forall|m: int| j <= m < t.len() implies claim_before(c, #[trigger] t[m]) by {
            assert(t[m] == s[m]);
        }
        if j > 0 {
            assert(t[j - 1] == s[j - 1]);
        }
        lemma_insert_claim(t, c, j);
        assert(s.insert(j, c) =~= t.insert(j, c).push(s.last()));
    }
}

/// The claims in storage order: by client sequence, then claim id, stably.
pub fn order_achievement_claims(claims: Vec<AchievementClaim>) -> (r: Vec<AchievementClaim>)
    ensures
        r@ == claims_in_order(claims@),
{
    let ghost cs = claims@;
    let n = claims.len();
    let mut remaining = claims;
    let mut sorted: Vec<AchievementClaim> = Vec::new();
    let mut k: usize = 0;
    while remaining.len() > 0
        invariant
            k <= cs.len(),
            n == cs.len(),
            remaining@ == cs.subrange(k as int, cs.len() as int),
            sorted@ == claims_in_order(cs.subrange(0, k as int)),
        decreases remaining@.len(),
    {
        let claim = remaining.remove(0);
        let ghost prefix = cs.subrange(0, k + 1);
        proof {
            assert(prefix.drop_last() =~= cs.subrange(0, k as int));
            assert(prefix.last() == claim);
        }
        let mut j: usize = sorted.len();
        while j > 0 && (claim.client_sequence < sorted[j - 1].client_sequence || (claim.client_sequence
            == sorted[j - 1].client_sequence && text_less(
            claim.claim_id.as_str(),
            sorted[j - 1].claim_id.as_str(),
        )))
            invariant
                j <= sorted@.len(),
                forall|m: int| j <= m < sorted@.len() ==> claim_before(claim, #[trigger] sorted@[m]),
            decreases j,
        {
            j = j - 1;
        }
        proof {
            lemma_insert_claim(sorted@, claim, j as int);
        }
        sorted.insert(j, claim);
        k = k + 1;
    }
    assert(cs.subrange(0, k as int) =~= cs);
    sorted
}

/// Whether a block of `s` has the hash `h`.
pub open spec fn hash_seen(s: Seq<Block>, h: Seq<char>) -> bool {
    exists|j: int| 0 <= j < s.len() && (#[trigger] s[j]).block_hash@ == h
}

/// The first block of `s` with each hash, in order.
pub open spec fn first_by_hash(s: Seq<Block>) -> Seq<Block>
    decreases s.len(),
{
    if s.len() == 0 {
        s
    } else if hash_seen(s.drop_last(), s.last().block_hash@) {
        first_by_hash(s.drop_last())
    } else {
        first_by_hash(s.drop_last()).push(s.last())
    }
}

/// Appends to `chain` the first block of `blocks` with each hash.
fn push_first_by_hash(chain: &mut Vec<Block>, blocks: Vec<Block>)
    ensures
        final(chain)@ == old(chain)@ + first_by_hash(blocks@),
{
    let ghost bs = blocks@;
    let ghost start = chain@;
    let n = blocks.len();
    let mut remaining = blocks;
    let mut seen: Vec<String> = Vec::new();
    let mut k: usize = 0;
    while remaining.len() > 0
        invariant
            k <= bs.len(),
            n == bs.len(),
            remaining@ == bs.subrange(k as int, bs.len() as int),
            chain@ == start + first_by_hash(bs.subrange(0, k as int)),
            forall|h: Seq<char>|
                (exists|j: int| 0 <= j < seen@.len() && (#[trigger] seen@[j])@ == h) == hash_seen(
                    bs.subrange(0, k as int),
                    h,
                ),
        decreases remaining@.len(),
    {
        let block = remaining.remove(0);
        let ghost before = bs.subrange(0, k as int);
        let ghost prefix = bs.subrange(0, k + 1);
        proof {
            assert(prefix.drop_last() =~= before);
            assert(prefix.last() == block);
        }
        let mut found = false;
        let mut j: usize = 0;
        while j < seen.len()
            invariant
                j <= seen@.len(),
                found == exists|m: int| 0 <= m < j && (#[trigger] seen@[m])@ == block.block_hash@,
            decreases seen@.len() - j,
        {
            if str_eq(seen[j].as_str(), block.block_hash.as_str()) {
                found = true;
            }
            j = j + 1;
        }
        assert(found == hash_seen(before, block.block_hash@));
        let ghost h0 = block.block_hash@;
        if !found {
            let ghost seen_old = seen@;
            assert(forall|h: Seq<char>|
                (exists|j: int| 0 <= j < seen_old.len() && (#[trigger] seen_old[j])@ == h) == hash_seen(
                    before,
                    h,
                ));
            seen.push(copy_string(&block.block_hash));
            chain.push(block);
            proof {
                assert forall|h: Seq<char>|
                    (exists|m: int| 0 <= m < seen@.len() && (#[trigger] seen@[m])@ == h) == hash_seen(
                        prefix,
                        h,
                    ) by {
                    if hash_seen(prefix, h) {
                        let w = choose|w: int| 0 <= w < prefix.len() && (#[trigger] prefix[w]).block_hash@ == h;
                        if w < k {
                            assert(before[w] == prefix[w]);
                            assert(hash_seen(before, h));
                            let m = choose|m: int| 0 <= m < seen_old.len() && (#[trigger] seen_old[m])@ == h;
                            assert(seen@[m] == seen_old[m]);
                        } else {
                            assert(seen@[seen@.len() - 1]@ == h);
                        }
                    }
                    if exists|m: int| 0 <= m < seen@.len() && (#[trigger] seen@[m])@ == h {
                        let m = choose|m: int| 0 <= m < seen@.len() && (#[trigger] seen@[m])@ == h;
                        if m < seen_old.len() {
                            assert(seen_old[m] == seen@[m]);
                            assert(hash_seen(before, h));
                            let w = choose|w: int| 0 <= w < before.len() && (#[trigger] before[w]).block_hash@ == h;
                            assert(prefix[w] == before[w]);
                        } else {
                            assert(prefix[k as int] == block);
                        }
                    }
                }
                assert(chain@ =~= start + first_by_hash(prefix));
            }
        } else {
            proof {
                assert forall|h: Seq<char>| hash_seen(prefix, h) == hash_seen(before, h) by {
                    if hash_seen(prefix, h) {
                        let w = choose|w: int| 0 <= w < prefix.len() && (#[trigger] prefix[w]).block_hash@ == h;
                        if w < k {
                            assert(before[w] == prefix[w]);
                        }
                    }
                    if hash_seen(before, h) {
                        let w = choose|w: int| 0 <= w < before.len() && (#[trigger] before[w]).block_hash@ == h;
                        assert(prefix[w] == before[w]);
                    }
                }
            }
        }
        k = k + 1;
    }
    assert(bs.subrange(0, k as int) =~= bs);
}

/// What the storage held for one player: the blocks and the claims, each
/// `None` where loading them failed.
pub struct LoadedPlayer {
    pub id: u128,
    pub blocks: Option<Vec<Block>>,
    pub claims: Option<Vec<AchievementClaim>>,
}

/// The blocks of `p` that extend a chain from the genesis block.
pub open spec fn accepted_of(p: LoadedPlayer) -> Seq<Block> {
    match p.blocks {
        Some(v) => split_blocks(v@).0,
        None => Seq::empty(),
    }
}

/// The accepted blocks of all players, player by player.
pub open spec fn accepted_blocks(ps: Seq<LoadedPlayer>) -> Seq<Block>
    decreases ps.len(),
{
    if ps.len() == 0 {
        Seq::empty()
    } else {
        accepted_blocks(ps.drop_last()) + accepted_of(ps.last())
    }
}

/// The transactions of the blocks, in order.
pub open spec fn block_txs(bs: Seq<Block>) -> Seq<Transaction>
    decreases bs.len(),
{
    if bs.len() == 0 {
        Seq::empty()
    } else {
        block_txs(bs.drop_last()) + bs.last().transactions@
    }
}

/// The profiles that replaying `txs` leaves: each profile change sets the
/// profile of its player.
pub open spec fn replay_profiles(txs: Seq<Transaction>) -> Map<Seq<char>, PlayerProfileView>
    decreases txs.len(),
{
    if txs.len() == 0 {
        Map::empty()
    } else {
        let m = replay_profiles(txs.drop_last());
        match txs.last().details {
            TransactionData::ProfileChange(c) => m.insert(c.profile.player_id@, c.profile@),
            _ => m,
        }
    }
}

/// The rewards that replaying `txs` leaves: each entitlement and
/// achievement is added to the rewards of its transaction's player.
pub open spec fn replay_rewards(txs: Seq<Transaction>) -> Map<Seq<char>, PlayerRewardStateView>
    decreases txs.len(),
{
    if txs.len() == 0 {
        Map::empty()
    } else {
        let m = replay_rewards(txs.drop_last());
        let t = txs.last();
        let before = reward_or_empty(m, t.player_id@);
        match t.details {
            TransactionData::Entitlement(e) => m.insert(
                t.player_id@,
                PlayerRewardStateView {
                    entitlements: before.entitlements.push(e@),
                    achievements: before.achievements,
                },
            ),
            TransactionData::Achievement(a) => m.insert(
                t.player_id@,
                PlayerRewardStateView {
                    entitlements: before.entitlements,
                    achievements: before.achievements.push(a@),
                },
            ),
            _ => m,
        }
    }
}

/// The claims restored from the players, under each player's UUID text;
/// players with no claims, or whose claims failed to load, get no entry.
pub open spec fn restored_claims(ps: Seq<LoadedPlayer>) -> Map<Seq<char>, Seq<AchievementClaimView>>
    decreases ps.len(),
{
    if ps.len() == 0 {
        Map::empty()
    } else {
        let m = restored_claims(ps.drop_last());
        let p = ps.last();
        match p.claims {
            Some(cs) => if cs@.len() > 0 {
                m.insert(hyphenated_uuid(p.id), claims_view(cs@))
            } else {
                m
            },
            None => m,
        }
    }
}

/// The claims of the newest write of claims for `player` that the storage
/// accepted among `calls`, if any.
pub open spec fn last_saved_claims(calls: Seq<StorageCall>, player: u128) -> Option<Seq<AchievementClaimView>>
    decreases calls.len(),
{
    if calls.len() == 0 {
        None
    } else {
        match calls.last() {
            StorageCall { write: StorageWrite::SaveClaims { player: p, claims }, result: Ok(_) } if p == player =>
                Some(claims_view(claims@)),
            _ => last_saved_claims(calls.drop_last(), player),
        }
    }
}

/// The claims restored under a UUID that only player `k` carries are
/// that player's, where it has some.
proof fn lemma_restored_claims_at(ps: Seq<LoadedPlayer>, k: int)
    requires
        0 <= k < ps.len(),
        forall|j: int| 0 <= j < ps.len() && j != k ==> hyphenated_uuid(#[trigger] ps[j].id) != hyphenated_uuid(ps[k].id),
        ps[k].claims matches Some(cs) && cs@.len() > 0,
    ensures
        restored_claims(ps).contains_key(hyphenated_uuid(ps[k].id)),
        restored_claims(ps)[hyphenated_uuid(ps[k].id)] == claims_view(ps[k].claims->0@),
    decreases ps.len(),
{
    let key = hyphenated_uuid(ps[k].id);
    if k < ps.len() - 1 {
        let rest = ps.drop_last();
        assert forall|j: int| 0 <= j < rest.len() && j != k implies hyphenated_uuid(#[trigger] rest[j].id) != hyphenated_uuid(rest[k].id) by {
            assert(rest[j] == ps[j]);
        }
        lemma_restored_claims_at(rest, k);
        assert(hyphenated_uuid(ps.last().id) != key) by {
            assert(ps.last() == ps[ps.len() - 1]);
        }
    }
}

/// What a service saved is what a restart restores: where the players
/// loaded at a restart give, for a player whose UUID text no other loaded
/// player shares, the claims its storage last accepted from the service
/// `saved` (some claims), the restored service holds exactly those claims
/// for that player.
pub proof fn lemma_saved_claims_restored<S: LedgerStorage>(
    saved: PlayerProfileService<S>,
    restored: PlayerProfileService<S>,
    players: Seq<LoadedPlayer>,
    k: int,
)
    requires
        restored.restored_from(players),
        0 <= k < players.len(),
        forall|j: int| 0 <= j < players.len() && j != k ==> hyphenated_uuid(#[trigger] players[j].id) != hyphenated_uuid(players[k].id),
        players[k].claims matches Some(cs) && cs@.len() > 0
            && last_saved_claims(saved.storage_calls(), players[k].id) == Some(claims_view(cs@)),
    ensures
        restored.claims().contains_key(hyphenated_uuid(players[k].id)),
        Some(restored.claims()[hyphenated_uuid(players[k].id)]) == last_saved_claims(
            saved.storage_calls(),
            players[k].id,
        ),
{
    lemma_restored_claims_at(players, k);
}

/// A canonical claim answered once is answered alike when the same
/// envelope comes again, whatever definition is then given, and the second
/// answer changes nothing: where the claim id was new for the player, or
/// was stored with this envelope and its acknowledgement.
pub proof fn lemma_repeated_envelope_answered_alike<S: LedgerStorage>(
    s0: PlayerProfileService<S>,
    s1: PlayerProfileService<S>,
    s2: PlayerProfileService<S>,
    r1: Result<EabClaimAcknowledgement, ProfileError>,
    r2: Result<EabClaimAcknowledgement, ProfileError>,
    player_id: Seq<char>,
    e: EabClaimEnvelopeView,
    d1: Option<AchievementDefinitionView>,
    d2: Option<AchievementDefinitionView>,
)
    requires
        s0.acknowledged_claim(s1, r1, player_id, e, d1),
        r1 is Ok,
        ({
            let known = claims_or_empty(s0.claims(), player_id);
            claim_index(known, e.record.claim_id) matches Some(i) ==> known[i].canonical_envelope == Some(e)
                && known[i].acknowledgement is Some
        }),
        s1.acknowledged_claim(s2, r2, player_id, e, d2),
    ensures
        r2 matches Ok(a2) && a2@ == r1->Ok_0@,
        s1.unchanged(s2),
{
    let known = claims_or_empty(s0.claims(), player_id);
    assert(s0.profiles().contains_key(player_id));
    match claim_index(known, e.record.claim_id) {
        Some(i) => {},
        None => {
            let stored = s1.claims()[player_id].last();
            assert(s1.claims().contains_key(player_id));
            assert(claims_or_empty(s1.claims(), player_id) == s1.claims()[player_id]);
            assert(stored == canonical_claim(e, stored.acknowledgement->0));
            assert(s1.claims()[player_id][known.len() as int] == stored);
        },
    }
}

/// Submitting the same claim twice answers alike: where the first
/// submission was answered `Ok`, the second is answered with the same
/// claim and changes nothing.
pub proof fn lemma_submit_twice_answers_alike<S: LedgerStorage>(
    s0: PlayerProfileService<S>,
    s1: PlayerProfileService<S>,
    s2: PlayerProfileService<S>,
    r1: Result<AchievementClaim, ProfileError>,
    r2: Result<AchievementClaim, ProfileError>,
    player_id: Seq<char>,
    claim: AchievementClaimInput,
)
    requires
        s0.claim_submitted(s1, r1, player_id, claim),
        r1 is Ok,
        s1.claim_submitted(s2, r2, player_id, claim),
    ensures
        r2 matches Ok(c2) && c2@ == r1->Ok_0@,
        s2.claims() == s1.claims(),
        s2.storage_calls() == s1.storage_calls(),
{
    let known = claims_or_empty(s0.claims(), player_id);
    if claim_index(known, claim.claim_id@) is None {
        assert(claims_or_empty(s1.claims(), player_id) == s1.claims()[player_id]);
    }
}

/// A canonical claim for an achievement already awarded to the player is
/// acknowledged against that award, with no second award: where the claim
/// id is new, the envelope and definition pass the policy, the ledger holds
/// an award `w` of the definition to the player, the player id is a UUID
/// and the storage accepts the save, the answer is `Ok`, acknowledges the
/// claim as already acknowledged with award `w`, is stored with the claim,
/// and leaves the rewards and ledger as they were.
pub proof fn lemma_award_once_per_player<S: LedgerStorage>(
    s0: PlayerProfileService<S>,
    s1: PlayerProfileService<S>,
    r: Result<EabClaimAcknowledgement, ProfileError>,
    player_id: Seq<char>,
    e: EabClaimEnvelopeView,
    d: AchievementDefinitionView,
    w: EabAwardReferenceView,
)
    requires
        s0.acknowledged_claim(s1, r, player_id, e, Some(d)),
        s0.profiles().contains_key(player_id),
        claim_index(claims_or_empty(s0.claims(), player_id), e.record.claim_id) is None,
        policy_decision(e, Some(d)) is None,
        latest_award(s0.chain(), player_id, d) == Some(w),
        uuid_bits_of(player_id) is Some,
        forall|k: int| s0.storage_calls().len() <= k < s1.storage_calls().len()
            ==> (#[trigger] s1.storage_calls()[k]).result is Ok,
    ensures
        r matches Ok(a) && {
            &&& a@.disposition == EabClaimDisposition::Acknowledged
            &&& a@.code == EabClaimDecisionCode::AlreadyAcknowledged
            &&& a@.award == Some(w)
        },
        s1.rewards() == s0.rewards(),
        s1.chain() == s0.chain(),
        s1.claims()[player_id].last().acknowledgement == Some(r->Ok_0@),
{
    let b0 = s0.storage_calls();
    let b1 = s1.storage_calls();
    let added = b1.subrange(b0.len() as int, b1.len() as int);
    let plan = save_plan(player_id, s1.claims()[player_id]);
    assert(plan.len() == 1);
    assert(added.len() >= 1);
    assert(added[0] == b1[b0.len() as int]);
    if added[0].result is Err {
        assert(added.len() == 1);
    } else {
        reveal_with_fuel(made_in_order, 2);
        assert(plan.drop_first() =~= Seq::<spec_fn(StorageWrite) -> bool>::empty());
        assert(made_in_order(added.drop_first(), plan.drop_first()));
        assert(added.drop_first().len() == 0);
        assert(added.len() == 1);
    }
    assert(added.last() == b1[b0.len() as int]);
}

/// The index of the newest transaction of `player_id` in `txs`.
pub open spec fn latest_tx_of(txs: Seq<Transaction>, player_id: Seq<char>) -> Option<int>
    decreases txs.len(),
{
    if txs.len() == 0 {
        None
    } else if txs.last().player_id@ == player_id {
        Some(txs.len() - 1)
    } else {
        latest_tx_of(txs.drop_last(), player_id)
    }
}

/// Where on the chain the newest transaction of `player_id` is: its
/// block's index and its index in the block.
pub open spec fn latest_receipt_at(chain: Seq<Block>, player_id: Seq<char>) -> Option<(int, int)>
    decreases chain.len(),
{
    if chain.len() == 0 {
        None
    } else {
        match latest_tx_of(chain.last().transactions@, player_id) {
            Some(j) => Some((chain.len() - 1, j)),
            None => latest_receipt_at(chain.drop_last(), player_id),
        }
    }
}

/// The award record of transaction `j` of block `b`.
pub open spec fn record_of_tx(rec: AwardRecord, b: Block, j: int) -> bool {
    let t = b.transactions@[j];
    &&& 0 <= j < b.transactions@.len()
    &&& rec.player_id@ == t.player_id@
    &&& rec.transaction_id@ == t.transaction_id@
    &&& rec.transaction_type@ == t.transaction_type@
    &&& rec.timestamp@ == t.timestamp@
    &&& rec.data_hash@ == t.data_hash@
    &&& rec.block_hash@ == b.block_hash@
    &&& rec.details@ == t.details@
}

/// The award record of the newest transaction in `b`.
pub open spec fn award_record_of(rec: AwardRecord, b: Block) -> bool {
    let t = b.transactions@.last();
    &&& b.transactions@.len() > 0
    &&& rec.player_id@ == t.player_id@
    &&& rec.transaction_id@ == t.transaction_id@
    &&& rec.transaction_type@ == t.transaction_type@
    &&& rec.timestamp@ == t.timestamp@
    &&& rec.data_hash@ == t.data_hash@
    &&& rec.block_hash@ == b.block_hash@
    &&& rec.details@ == t.details@
}

// ---------------------------------------------------------------------
// The service.
// ---------------------------------------------------------------------

/// Profiles, rewards and claims by player id, with the ledger that logs
/// every change and the storage that persists it.
pub struct PlayerProfileService<S: LedgerStorage> {
    profiles: Table<PlayerProfile>,
    rewards: Table<PlayerRewardState>,
    achievement_claims: Table<Vec<AchievementClaim>>,
    pub ledger: Blockchain,
    storage: S,
    calls: Ghost<Seq<StorageCall>>,
    reads: Ghost<Seq<StorageRead>>,
}

impl<S: LedgerStorage> PlayerProfileService<S> {
    /// The profiles by player id.
    pub closed spec fn profiles(&self) -> Map<Seq<char>, PlayerProfileView> {
        self.profiles.map().map_values(|p: PlayerProfile| p@)
    }

    /// The rewards by player id.
    pub closed spec fn rewards(&self) -> Map<Seq<char>, PlayerRewardStateView> {
        self.rewards.map().map_values(|r: PlayerRewardState| r@)
    }

    /// The claims by player id, oldest first.
    pub closed spec fn claims(&self) -> Map<Seq<char>, Seq<AchievementClaimView>> {
        self.achievement_claims.map().map_values(|v: Vec<AchievementClaim>| claims_view(v@))
    }

    /// The ledger's blocks, oldest first.
    pub closed spec fn chain(&self) -> Seq<Block> {
        self.ledger.chain@
    }

    /// The writes handed to the storage since the service was made, with
    /// the storage's answers, oldest first.
    pub closed spec fn storage_calls(&self) -> Seq<StorageCall> {
        self.calls@
    }

    /// The reads the service made of its storage when it was made, with
    /// the storage's answers, oldest first.
    pub closed spec fn storage_reads(&self) -> Seq<StorageRead> {
        self.reads@
    }

    /// `after` is this service with the achievement of `d` awarded to
    /// `player_id`: added to the player's rewards and logged in a block.
    pub open spec fn achievement_award_step(
        self,
        after: Self,
        player_id: Seq<char>,
        d: AchievementDefinitionView,
    ) -> bool {
        &&& after.profiles() == self.profiles()
        &&& after.claims() == self.claims()
        &&& award_step(self.rewards(), self.chain(), after.rewards(), after.chain(), player_id, d)
    }

    /// How a claim whose id is new for `player_id` is answered and stored:
    /// refused by policy, acknowledged against an award already on the
    /// ledger, or acknowledged with a new award.
    pub open spec fn new_claim_answered(
        self,
        after: Self,
        r: Result<EabClaimAcknowledgement, ProfileError>,
        player_id: Seq<char>,
        e: EabClaimEnvelopeView,
        d: Option<AchievementDefinitionView>,
    ) -> bool {
        let known = claims_or_empty(self.claims(), player_id);
        let stored = after.claims()[player_id].last();
        let a = stored.acknowledgement->0;
        let saved = save_plan(player_id, after.claims()[player_id]);
        let stored_ok = {
            &&& after.claims() == self.claims().insert(player_id, known.push(stored))
            &&& stored.acknowledgement is Some
            &&& stored == canonical_claim(e, a)
            &&& timestamp_text(a.first_observed_at)
            &&& (r matches Ok(ra) ==> ra@ == a)
            &&& (uuid_bits_of(player_id) is None ==> r is Err)
            &&& claim_index(after.claims()[player_id], e.record.claim_id) == Some(known.len() as int)
        };
        match policy_decision(e, d) {
            Some((disposition, code)) => {
                &&& after.rewards() == self.rewards()
                &&& after.chain() == self.chain()
                &&& stored_ok
                &&& acknowledges(a, e, disposition, code, a.first_observed_at, None)
                &&& storage_answered(self.storage_calls(), after.storage_calls(), saved, r)
            },
            None => match latest_award(self.chain(), player_id, d->0) {
                Some(w) => {
                    &&& after.rewards() == self.rewards()
                    &&& after.chain() == self.chain()
                    &&& stored_ok
                    &&& acknowledges(
                        a,
                        e,
                        EabClaimDisposition::Acknowledged,
                        EabClaimDecisionCode::AlreadyAcknowledged,
                        a.first_observed_at,
                        Some(w),
                    )
                    &&& storage_answered(self.storage_calls(), after.storage_calls(), saved, r)
                },
                None => {
                    &&& award_step(self.rewards(), self.chain(), after.rewards(), after.chain(), player_id, d->0)
                    &&& ((r is Err && after.claims() == self.claims()) || (stored_ok && acknowledges(
                        a,
                        e,
                        EabClaimDisposition::Acknowledged,
                        EabClaimDecisionCode::Acknowledged,
                        a.first_observed_at,
                        Some(newest_award_ref(after.chain())),
                    )))
                    &&& ((uuid_bits_of(player_id) is None || self.chain().len() == 0) ==> r is Err)
                    &&& (self.chain().len() > 0 ==> storage_answered(
                        self.storage_calls(),
                        after.storage_calls(),
                        block_plan(player_id, after.chain()) + saved,
                        r,
                    ))
                },
            },
        }
    }

    /// This service is the one restored from what `players` loaded:
    /// profiles and rewards replayed from each player's accepted blocks,
    /// the claims of each player, a ledger of the genesis block followed by
    /// the accepted blocks sorted by timestamp, each hash once, and no
    /// storage calls made yet.
    pub open spec fn restored_from(self, players: Seq<LoadedPlayer>) -> bool {
        &&& self.profiles() == replay_profiles(block_txs(accepted_blocks(players)))
        &&& self.rewards() == replay_rewards(block_txs(accepted_blocks(players)))
        &&& self.claims() == restored_claims(players)
        &&& self.chain().len() >= 1
        &&& is_genesis(self.chain()[0])
        &&& self.chain().drop_first() == first_by_hash(sort_by_time(accepted_blocks(players)))
        &&& self.storage_calls() == Seq::<StorageCall>::empty()
    }

    /// Everything but the claims is as in `self`.
    pub open spec fn same_but_claims(self, after: Self) -> bool {
        &&& after.profiles() == self.profiles()
        &&& after.rewards() == self.rewards()
        &&& after.chain() == self.chain()
    }

    /// Nothing changed.
    pub open spec fn unchanged(self, after: Self) -> bool {
        &&& self.same_but_claims(after)
        &&& after.claims() == self.claims()
        &&& after.storage_calls() == self.storage_calls()
    }

    /// How promoting the pending claim `c` at index `i` went: the claim is
    /// marked promoted and reviewed, then the achievement is awarded and
    /// its ids recorded on the claim; persisting the claims may fail before
    /// the award or after it.
    pub open spec fn promotion_done(
        self,
        after: Self,
        r: Result<(AchievementClaim, Option<AwardRecord>), ProfileError>,
        player_id: Seq<char>,
        i: int,
        reviewer: Seq<char>,
        note: Option<Seq<char>>,
        d: AchievementDefinitionView,
    ) -> bool {
        let known = claims_or_empty(self.claims(), player_id);
        let p = after.claims()[player_id][i];
        let marked = reviewed_claim(
            known[i],
            AchievementClaimStatus::Promoted,
            p.reviewed_at->0,
            reviewer,
            note,
        );
        &&& timestamp_text(p.reviewed_at->0)
        &&& after.profiles() == self.profiles()
        &&& after.claims() == self.claims().insert(player_id, known.update(i, p))
        &&& ((p == marked && r is Err && after.rewards() == self.rewards() && after.chain()
            == self.chain()) || (award_step(
            self.rewards(),
            self.chain(),
            after.rewards(),
            after.chain(),
            player_id,
            d,
        ) && (p == marked || p == with_award_ids(marked, newest_award_ref(after.chain())))))
        &&& (r matches Ok((u, award)) ==> {
            &&& u@ == p
            &&& p == with_award_ids(marked, newest_award_ref(after.chain()))
            &&& award matches Some(rec) && award_record_of(rec, after.chain().last())
        })
        &&& (uuid_bits_of(player_id) is None ==> (r matches Err(e) && invalid_player_id(e)
            && after.rewards() == self.rewards() && after.chain() == self.chain()))
        &&& (self.chain().len() > 0 ==> storage_answered(
            self.storage_calls(),
            after.storage_calls(),
            save_plan(player_id, known.update(i, marked)) + block_plan(player_id, after.chain())
                + save_plan(player_id, after.claims()[player_id]),
            r,
        ))
    }

    /// How a canonical claim for `player_id` was answered: a claim id
    /// already recorded for the player is answered with the stored answer
    /// when the envelope is the same and as a conflict otherwise, changing
    /// nothing; a new claim is answered as `new_claim_answered` says.
    pub open spec fn acknowledged_claim(
        self,
        after: Self,
        r: Result<EabClaimAcknowledgement, ProfileError>,
        player_id: Seq<char>,
        e: EabClaimEnvelopeView,
        d: Option<AchievementDefinitionView>,
    ) -> bool {
        &&& (after.profiles() == self.profiles())
        &&& (!self.profiles().contains_key(player_id) ==> {
                &&& r matches Err(err) && profile_missing(err)
                &&& after.rewards() == self.rewards()
                &&& after.claims() == self.claims()
                &&& after.chain() == self.chain()
                &&& after.storage_calls() == self.storage_calls()
            })
        &&& (self.profiles().contains_key(player_id) ==> {
                let known = claims_or_empty(self.claims(), player_id);
                match claim_index(known, e.record.claim_id) {
                    Some(i) => {
                        &&& after.rewards() == self.rewards()
                        &&& after.claims() == self.claims()
                        &&& after.chain() == self.chain()
                        &&& after.storage_calls() == self.storage_calls()
                        &&& r matches Ok(a) && if known[i].canonical_envelope == Some(e)
                            && known[i].acknowledgement is Some {
                            a@ == known[i].acknowledgement->0
                        } else {
                            &&& acknowledges(
                                a@,
                                e,
                                EabClaimDisposition::Conflict,
                                EabClaimDecisionCode::ClaimIdPayloadMismatch,
                                a@.first_observed_at,
                                None,
                            )
                            &&& timestamp_text(a@.first_observed_at)
                        }
                    },
                    None => self.new_claim_answered(after, r, player_id, e, d),
                }
            })
    }

    /// The profile of `player_id`, if any.
    pub fn get_profile(&self, player_id: &str) -> (r: Option<&PlayerProfile>)
        ensures
            match r {
                Some(p) => self.profiles().contains_key(player_id@) && p@ == self.profiles()[player_id@],
                None => !self.profiles().contains_key(player_id@),
            },
    {
        self.profiles.get(player_id)
    }

    /// The rewards of `player_id`, if any.
    pub fn get_reward_state(&self, player_id: &str) -> (r: Option<&PlayerRewardState>)
        ensures
            match r {
                Some(v) => self.rewards().contains_key(player_id@) && v@ == self.rewards()[player_id@],
                None => !self.rewards().contains_key(player_id@),
            },
    {
        self.rewards.get(player_id)
    }

    /// The claims of `player_id`, if any.
    pub fn get_achievement_claims(&self, player_id: &str) -> (r: Option<&Vec<AchievementClaim>>)
        ensures
            match r {
                Some(v) => self.claims().contains_key(player_id@) && claims_view(v@) == self.claims()[player_id@],
                None => !self.claims().contains_key(player_id@),
            },
    {
        self.achievement_claims.get(player_id)
    }

    /// The first claim of `player_id` with id `claim_id`, if any.
    pub fn get_achievement_claim(&self, player_id: &str, claim_id: &str) -> (r: Option<&AchievementClaim>)
        ensures
            match r {
                Some(c) => self.claims().contains_key(player_id@) && (claim_index(
                    self.claims()[player_id@],
                    claim_id@,
                ) matches Some(i) && c@ == self.claims()[player_id@][i]),
                None => !self.claims().contains_key(player_id@) || claim_index(
                    self.claims()[player_id@],
                    claim_id@,
                ) is None,
            },
    {
        match self.achievement_claims.get(player_id) {
            None => None,
            Some(claims) => match position_of_claim(claims, claim_id) {
                Some(i) => Some(&claims[i]),
                None => None,
            },
        }
    }

    /// The acknowledgement stored with the first claim of `player_id` with
    /// id `claim_id`, if any.
    pub fn get_claim_acknowledgement(&self, player_id: &str, claim_id: &str) -> (r: Option<
        &EabClaimAcknowledgement,
    >)
        ensures
            match r {
                Some(a) => self.claims().contains_key(player_id@) && (claim_index(
                    self.claims()[player_id@],
                    claim_id@,
                ) matches Some(i) && self.claims()[player_id@][i].acknowledgement == Some(a@)),
                None => !self.claims().contains_key(player_id@) || (claim_index(
                    self.claims()[player_id@],
                    claim_id@,
                ) matches Some(i) ==> self.claims()[player_id@][i].acknowledgement is None),
            },
    {
        match self.get_achievement_claim(player_id, claim_id) {
            Some(c) => match &c.acknowledgement {
                Some(a) => Some(a),
                None => None,
            },
            None => None,
        }
    }

    /// Logs `profile` as changed: a block with one profile-change
    /// transaction, appended to the storage where the player id is a UUID.
    fn log_change(&mut self, profile: &PlayerProfile) -> (r: Result<(), ProfileError>)
        ensures
            final(self).profiles() == old(self).profiles(),
            final(self).rewards() == old(self).rewards(),
            final(self).claims() == old(self).claims(),
            appended_one(old(self).chain(), final(self).chain()),
            old(self).chain().len() > 0 ==> profile_change_tx(
                final(self).chain().last().transactions@[0],
                *profile,
            ),
            r is Err ==> uuid_bits_of(profile.player_id@) is Some && old(self).chain().len() > 0,
            storage_answered(
                old(self).storage_calls(),
                final(self).storage_calls(),
                block_plan(profile.player_id@, final(self).chain()),
                r,
            ),
    {
        let mut json: Vec<u8> = Vec::new();
        write_profile(&mut json, profile);
        let hash = sha256_hex(json.as_slice());
        let txn = Transaction {
            transaction_id: new_uuid_text(),
            player_id: copy_string(&profile.player_id),
            transaction_type: String::from_str("profile_change"),
            timestamp: now_rfc3339(),
            data_hash: copy_string(&hash),
            signature: String::new(),
            details: TransactionData::ProfileChange(
                ProfileChange { profile_hash: hash, profile: profile.duplicate() },
            ),
        };
        let mut txs: Vec<Transaction> = Vec::new();
        txs.push(txn);
        self.ledger.add_block(txs);
        let ghost before = self.calls@;
        proof {
            lemma_no_calls(before);
        }
        if let Some(id) = parse_uuid(profile.player_id.as_str()) {
            if let Some(block) = self.ledger.get_latest_block() {
                let res = self.storage.append_block(id, block);
                proof {
                    let call = StorageCall {
                        write: StorageWrite::AppendBlock { player: id, block: *block },
                        result: res,
                    };
                    lemma_one_call(before, call, block_plan(profile.player_id@, self.chain()));
                    self.calls@ = before.push(call);
                }
                if let Err(e) = res {
                    return Err(e);
                }
            }
        }
        Ok(())
    }

    /// Creates (or replaces) the profile of `player_id`, gives the player an
    /// empty reward state if it has none, and logs the profile.
    pub fn create_profile(&mut self, player_id: &str, name: &str) -> (r: Result<&PlayerProfile, ProfileError>)
        ensures
            final(self).profiles() == old(self).profiles().insert(
                player_id@,
                fresh_profile(player_id@, name@),
            ),
            final(self).rewards() == (if old(self).rewards().contains_key(player_id@) {
                old(self).rewards()
            } else {
                old(self).rewards().insert(
                    player_id@,
                    PlayerRewardStateView { entitlements: Seq::empty(), achievements: Seq::empty() },
                )
            }),
            final(self).claims() == old(self).claims(),
            appended_one(old(self).chain(), final(self).chain()),
            old(self).chain().len() > 0 ==> {
                let t = final(self).chain().last().transactions@[0];
                &&& logs_profile(t, fresh_profile(player_id@, name@))
            },
            match r {
                Ok(p) => p@ == fresh_profile(player_id@, name@),
                Err(_) => uuid_bits_of(player_id@) is Some && old(self).chain().len() > 0,
            },
            storage_answered(
                old(self).storage_calls(),
                final(self).storage_calls(),
                block_plan(player_id@, final(self).chain()),
                r,
            ),
    {
        let profile = PlayerProfile::new(String::from_str(player_id), String::from_str(name));
        self.profiles.insert(String::from_str(player_id), profile.duplicate());
        if self.rewards.get(player_id).is_none() {
            let fresh = PlayerRewardState { entitlements: Vec::new(), achievements: Vec::new() };
            assert(fresh@.entitlements =~= Seq::empty());
            assert(fresh@.achievements =~= Seq::empty());
            self.rewards.insert(String::from_str(player_id), fresh);
            assert(self.rewards() =~= old(self).rewards().insert(
                player_id@,
                PlayerRewardStateView { entitlements: Seq::empty(), achievements: Seq::empty() },
            ));
        } else {
            assert(self.rewards() =~= old(self).rewards());
        }
        proof {
            assert(self.profiles() =~= old(self).profiles().insert(player_id@, fresh_profile(player_id@, name@)));
        }
        match self.log_change(&profile) {
            Err(e) => {
                return Err(e);
            },
            Ok(()) => {},
        }
        match self.profiles.get(player_id) {
            Some(p) => {
                assert(self.profiles()[player_id@] == p@);
                assert(self.profiles() =~= old(self).profiles().insert(
                    player_id@,
                    fresh_profile(player_id@, name@),
                ));
                assert(p@ == fresh_profile(player_id@, name@));
                Ok(p)
            },
            None => {
                assert(self.profiles().contains_key(player_id@));
                assert(self.profiles().dom() == self.profiles.map().dom());
                Err(ProfileError::new(ProfileErrorKind::Other, "profile insertion failed"))
            },
        }
    }

    /// Hands the newest block to the storage and describes its newest
    /// transaction; fails with `failure` where the player id is no UUID or
    /// the ledger is empty.
    fn persist_award(&mut self, player_id: &str, missing: &str, failure: &str) -> (r: Result<
        AwardRecord,
        ProfileError,
    >)
        requires
            old(self).chain().len() > 0 ==> old(self).chain().last().transactions@.len() > 0,
        ensures
            final(self).profiles() == old(self).profiles(),
            final(self).rewards() == old(self).rewards(),
            final(self).claims() == old(self).claims(),
            final(self).chain() == old(self).chain(),
            storage_answered(
                old(self).storage_calls(),
                final(self).storage_calls(),
                block_plan(player_id@, old(self).chain()),
                r,
            ),
            match r {
                Ok(rec) => {
                    &&& uuid_bits_of(player_id@) is Some
                    &&& old(self).chain().len() > 0
                    &&& award_record_of(rec, old(self).chain().last())
                },
                Err(e) => (uuid_bits_of(player_id@) is None || old(self).chain().len() == 0) ==> (
                e.kind == ProfileErrorKind::Other && e.message@ == failure@),
            },
            (uuid_bits_of(player_id@) is None || old(self).chain().len() == 0) ==> r is Err,
    {
        let ghost before = self.calls@;
        proof {
            lemma_no_calls(before);
        }
        if let Some(id) = parse_uuid(player_id) {
            if let Some(block) = self.ledger.get_latest_block() {
                let res = self.storage.append_block(id, block);
                proof {
                    lemma_one_call(before, StorageCall {
                        write: StorageWrite::AppendBlock { player: id, block: *block },
                        result: res,
                    }, block_plan(player_id@, old(self).chain()));
                    self.calls@ = before.push(StorageCall {
                        write: StorageWrite::AppendBlock { player: id, block: *block },
                        result: res,
                    });
                }
                if let Err(e) = res {
                    return Err(e);
                }
                let n = block.transactions.len();
                if n == 0 {
                    return Err(ProfileError::new(ProfileErrorKind::Other, missing));
                }
                let tx = &block.transactions[n - 1];
                return Ok(
                    AwardRecord {
                        player_id: copy_string(&tx.player_id),
                        transaction_id: copy_string(&tx.transaction_id),
                        transaction_type: copy_string(&tx.transaction_type),
                        timestamp: copy_string(&tx.timestamp),
                        data_hash: copy_string(&tx.data_hash),
                        block_hash: copy_string(&block.block_hash),
                        details: tx.details.duplicate(),
                    },
                );
            }
        }
        Err(ProfileError::new(ProfileErrorKind::Other, failure))
    }

    /// Awards `entitlement` to `player_id`: added to the player's rewards,
    /// logged in a block of its own, persisted and described.
    pub fn award_entitlement(
        &mut self,
        player_id: &str,
        entitlement: &EntitlementDefinition,
        quantity: u32,
        expiration_date: Option<String>,
    ) -> (r: Result<AwardRecord, ProfileError>)
        ensures
            !old(self).profiles().contains_key(player_id@) ==> {
                &&& r matches Err(e) && profile_missing(e)
                &&& final(self).profiles() == old(self).profiles()
                &&& final(self).rewards() == old(self).rewards()
                &&& final(self).claims() == old(self).claims()
                &&& final(self).chain() == old(self).chain()
                &&& final(self).storage_calls() == old(self).storage_calls()
            },
            old(self).profiles().contains_key(player_id@) ==> {
                let ev = entitlement_award(*entitlement, quantity, opt_view(expiration_date));
                let before = reward_or_empty(old(self).rewards(), player_id@);
                &&& final(self).profiles() == old(self).profiles()
                &&& final(self).claims() == old(self).claims()
                &&& final(self).rewards() == old(self).rewards().insert(
                    player_id@,
                    PlayerRewardStateView {
                        entitlements: before.entitlements.push(ev),
                        achievements: before.achievements,
                    },
                )
                &&& appended_one(old(self).chain(), final(self).chain())
                &&& old(self).chain().len() > 0 ==> entitlement_tx(
                    final(self).chain().last().transactions@[0],
                    player_id@,
                    ev,
                )
                &&& r matches Ok(rec) ==> uuid_bits_of(player_id@) is Some && award_record_of(
                    rec,
                    final(self).chain().last(),
                )
                &&& (uuid_bits_of(player_id@) is None || old(self).chain().len() == 0) ==> (r matches Err(
                    e,
                ) && e.kind == ProfileErrorKind::Other && e.message@
                    == "failed to persist entitlement award"@)
                &&& storage_answered(
                    old(self).storage_calls(),
                    final(self).storage_calls(),
                    block_plan(player_id@, final(self).chain()),
                    r,
                )
            },
    {
        if self.profiles.get(player_id).is_none() {
            return Err(ProfileError::new(ProfileErrorKind::NotFound, "profile not found"));
        }
        let ghost ev = entitlement_award(*entitlement, quantity, opt_view(expiration_date));
        let details = Entitlement {
            developer: copy_string(&entitlement.developer),
            game: copy_string(&entitlement.game),
            entitlement_id: copy_string(&entitlement.entitlement_id),
            version: entitlement.version,
            item_type: copy_string(&entitlement.item_type),
            item_id: copy_string(&entitlement.item_id),
            quantity,
            metadata: copy_string(&entitlement.description),
            expiration_date,
        };
        self.push_entitlement(player_id, details.duplicate());
        let mut json: Vec<u8> = Vec::new();
        write_entitlement(&mut json, &details);
        let hash = sha256_hex(json.as_slice());
        let txn = Transaction {
            transaction_id: new_uuid_text(),
            player_id: String::from_str(player_id),
            transaction_type: String::from_str("entitlement"),
            timestamp: now_rfc3339(),
            data_hash: hash,
            signature: String::new(),
            details: TransactionData::Entitlement(details),
        };
        let mut txs: Vec<Transaction> = Vec::new();
        txs.push(txn);
        self.ledger.add_block(txs);
        self.persist_award(player_id, "missing entitlement transaction in latest block", "failed to persist entitlement award")
    }

    /// Adds `e` to the rewards of `player_id`, creating them if needed.
    fn push_entitlement(&mut self, player_id: &str, e: Entitlement)
        ensures
            final(self).storage_calls() == old(self).storage_calls(),
            final(self).profiles() == old(self).profiles(),
            final(self).claims() == old(self).claims(),
            final(self).chain() == old(self).chain(),
            final(self).rewards() == old(self).rewards().insert(
                player_id@,
                PlayerRewardStateView {
                    entitlements: reward_or_empty(old(self).rewards(), player_id@).entitlements.push(e@),
                    achievements: reward_or_empty(old(self).rewards(), player_id@).achievements,
                },
            ),
    {
        let ghost ev = e@;
        match self.rewards.get_mut(player_id) {
            Some(state) => {
                let ghost before = state.entitlements@;
                state.entitlements.push(e);
                proof {
                    assert(entitlements_view(state.entitlements@) =~= entitlements_view(before).push(ev));
                }
            },
            None => {
                let mut entitlements: Vec<Entitlement> = Vec::new();
                entitlements.push(e);
                let state = PlayerRewardState { entitlements, achievements: Vec::new() };
                assert(state@.entitlements =~= Seq::<EntitlementView>::empty().push(ev));
                assert(state@.achievements =~= Seq::<AchievementView>::empty());
                self.rewards.insert(String::from_str(player_id), state);
            },
        }
        assert(self.rewards() =~= old(self).rewards().insert(
            player_id@,
            PlayerRewardStateView {
                entitlements: reward_or_empty(old(self).rewards(), player_id@).entitlements.push(ev),
                achievements: reward_or_empty(old(self).rewards(), player_id@).achievements,
            },
        ));
    }

    /// Adds `a` to the rewards of `player_id`, creating them if needed.
    fn push_achievement(&mut self, player_id: &str, a: Achievement)
        ensures
            final(self).storage_calls() == old(self).storage_calls(),
            final(self).profiles() == old(self).profiles(),
            final(self).claims() == old(self).claims(),
            final(self).chain() == old(self).chain(),
            final(self).rewards() == old(self).rewards().insert(
                player_id@,
                PlayerRewardStateView {
                    entitlements: reward_or_empty(old(self).rewards(), player_id@).entitlements,
                    achievements: reward_or_empty(old(self).rewards(), player_id@).achievements.push(a@),
                },
            ),
    {
        let ghost av = a@;
        match self.rewards.get_mut(player_id) {
            Some(state) => {
                let ghost before = state.achievements@;
                state.achievements.push(a);
                proof {
                    assert(achievements_view(state.achievements@) =~= achievements_view(before).push(av));
                }
            },
            None => {
                let mut achievements: Vec<Achievement> = Vec::new();
                achievements.push(a);
                let state = PlayerRewardState { entitlements: Vec::new(), achievements };
                assert(state@.achievements =~= Seq::<AchievementView>::empty().push(av));
                assert(state@.entitlements =~= Seq::<EntitlementView>::empty());
                self.rewards.insert(String::from_str(player_id), state);
            },
        }
        assert(self.rewards() =~= old(self).rewards().insert(
            player_id@,
            PlayerRewardStateView {
                entitlements: reward_or_empty(old(self).rewards(), player_id@).entitlements,
                achievements: reward_or_empty(old(self).rewards(), player_id@).achievements.push(av),
            },
        ));
    }

    /// Awards `achievement` to `player_id`: added to the player's rewards,
    /// logged in a block of its own, persisted and described.
    pub fn award_achievement(&mut self, player_id: &str, achievement: &AchievementDefinition) -> (r: Result<
        AwardRecord,
        ProfileError,
    >)
        ensures
            !old(self).profiles().contains_key(player_id@) ==> {
                &&& r matches Err(e) && profile_missing(e)
                &&& final(self).profiles() == old(self).profiles()
                &&& final(self).rewards() == old(self).rewards()
                &&& final(self).claims() == old(self).claims()
                &&& final(self).chain() == old(self).chain()
                &&& final(self).storage_calls() == old(self).storage_calls()
            },
            old(self).profiles().contains_key(player_id@) ==> {
                &&& old(self).achievement_award_step(*final(self), player_id@, achievement@)
                &&& r matches Ok(rec) ==> uuid_bits_of(player_id@) is Some && award_record_of(
                    rec,
                    final(self).chain().last(),
                )
                &&& (uuid_bits_of(player_id@) is None || old(self).chain().len() == 0) ==> (r matches Err(
                    e,
                ) && e.kind == ProfileErrorKind::Other && e.message@
                    == "failed to persist achievement award"@)
                &&& storage_answered(
                    old(self).storage_calls(),
                    final(self).storage_calls(),
                    block_plan(player_id@, final(self).chain()),
                    r,
                )
            },
    {
        if self.profiles.get(player_id).is_none() {
            return Err(ProfileError::new(ProfileErrorKind::NotFound, "profile not found"));
        }
        let metadata = award_metadata_json(&achievement.award_metadata());
        let details = Achievement {
            developer: String::from_str(achievement.developer()),
            game: String::from_str(achievement.game()),
            achievement_id: String::from_str(achievement.achievement_id()),
            version: achievement.version(),
            achievement_name: String::from_str(achievement.name()),
            criteria: String::from_str(achievement.accomplishment_summary()),
            timestamp_earned: now_rfc3339(),
            metadata,
        };
        let ghost av = details@;
        assert(achievement_awarded(av, achievement@));
        reveal(award_step);
        self.push_achievement(player_id, details.duplicate());
        let mut json: Vec<u8> = Vec::new();
        write_achievement(&mut json, &details);
        let hash = sha256_hex(json.as_slice());
        let txn = Transaction {
            transaction_id: new_uuid_text(),
            player_id: String::from_str(player_id),
            transaction_type: String::from_str("achievement"),
            timestamp: now_rfc3339(),
            data_hash: hash,
            signature: String::new(),
            details: TransactionData::Achievement(details),
        };
        let mut txs: Vec<Transaction> = Vec::new();
        txs.push(txn);
        self.ledger.add_block(txs);
        self.persist_award(player_id, "missing achievement transaction in latest block", "failed to persist achievement award")
    }

    /// Saves the claims of `player_id` to the storage, under its UUID.
    fn persist_claims(&mut self, player_id: &str) -> (r: Result<(), ProfileError>)
        ensures
            final(self).profiles() == old(self).profiles(),
            final(self).rewards() == old(self).rewards(),
            final(self).claims() == old(self).claims(),
            final(self).chain() == old(self).chain(),
            uuid_bits_of(player_id@) is None ==> (r matches Err(e) && invalid_player_id(e)),
            storage_answered(
                old(self).storage_calls(),
                final(self).storage_calls(),
                save_plan(player_id@, claims_or_empty(old(self).claims(), player_id@)),
                r,
            ),
    {
        let id = match parse_uuid(player_id) {
            Some(id) => id,
            None => {
                assert(self.storage_calls().subrange(0, self.storage_calls().len() as int) =~= self.storage_calls());
                assert(self.storage_calls().subrange(self.storage_calls().len() as int, self.storage_calls().len() as int) =~= Seq::<StorageCall>::empty());
                return Err(ProfileError::new(ProfileErrorKind::InvalidInput, "invalid player id"));
            },
        };
        let ghost before = self.calls@;
        let (res, saved) = match self.achievement_claims.get(player_id) {
            Some(claims) => {
                let ghost saved = *claims;
                assert(claims_view(saved@) == claims_or_empty(self.claims(), player_id@));
                (self.storage.save_achievement_claims(id, claims.as_slice()), Ghost(saved))
            },
            None => {
                let none: Vec<AchievementClaim> = Vec::new();
                assert(claims_view(none@) =~= Seq::<AchievementClaimView>::empty());
                assert(claims_view(none@) == claims_or_empty(self.claims(), player_id@));
                let ghost saved = none;
                (self.storage.save_achievement_claims(id, none.as_slice()), Ghost(saved))
            },
        };
        proof {
            let call = StorageCall { write: StorageWrite::SaveClaims { player: id, claims: saved@ }, result: res };
            self.calls@ = before.push(call);
            let added = self.calls@.subrange(before.len() as int, self.calls@.len() as int);
            assert(added =~= seq![call]);
            assert(self.calls@.subrange(0, before.len() as int) =~= before);
            assert(added.drop_first() =~= Seq::<StorageCall>::empty());
            let plan = save_plan(player_id@, claims_or_empty(old(self).claims(), player_id@));
            assert(plan.drop_first() =~= Seq::<spec_fn(StorageWrite) -> bool>::empty());
            assert((plan[0])(call.write));
            reveal_with_fuel(made_in_order, 2);
            assert(made_in_order(added, plan));
        }
        res
    }

    /// Adds `c` to the claims of `player_id`, creating them if needed.
    fn push_claim(&mut self, player_id: &str, c: AchievementClaim)
        ensures
            final(self).storage_calls() == old(self).storage_calls(),
            final(self).profiles() == old(self).profiles(),
            final(self).rewards() == old(self).rewards(),
            final(self).chain() == old(self).chain(),
            final(self).claims() == old(self).claims().insert(
                player_id@,
                claims_or_empty(old(self).claims(), player_id@).push(c@),
            ),
    {
        let ghost cv = c@;
        match self.achievement_claims.get_mut(player_id) {
            Some(claims) => {
                let ghost before = claims@;
                claims.push(c);
                proof {
                    assert(claims_view(claims@) =~= claims_view(before).push(cv));
                }
            },
            None => {
                let mut claims: Vec<AchievementClaim> = Vec::new();
                claims.push(c);
                assert(claims_view(claims@) =~= Seq::<AchievementClaimView>::empty().push(cv));
                self.achievement_claims.insert(String::from_str(player_id), claims);
            },
        }
        assert(self.claims() =~= old(self).claims().insert(
            player_id@,
            claims_or_empty(old(self).claims(), player_id@).push(cv),
        ));
    }

    /// How submitting `claim` for `player_id` went: a claim id the player
    /// already used is answered with the recorded claim and changes
    /// nothing; a new one is recorded as pending and saved; nothing but the
    /// claims changes.
    pub open spec fn claim_submitted(
        self,
        after: Self,
        r: Result<AchievementClaim, ProfileError>,
        player_id: Seq<char>,
        claim: AchievementClaimInput,
    ) -> bool {
        &&& (after.profiles() == self.profiles())
        &&& (after.rewards() == self.rewards())
        &&& (after.chain() == self.chain())
        &&& (!self.profiles().contains_key(player_id) ==> {
                &&& r matches Err(e) && profile_missing(e)
                &&& after.claims() == self.claims()
                &&& after.storage_calls() == self.storage_calls()
            })
        &&& (self.profiles().contains_key(player_id) ==> match claim_index(
                claims_or_empty(self.claims(), player_id),
                claim.claim_id@,
            ) {
                Some(i) => {
                    &&& r matches Ok(c) && c@ == self.claims()[player_id][i]
                    &&& after.claims() == self.claims()
                    &&& after.storage_calls() == self.storage_calls()
                },
                None => {
                    let stored = after.claims()[player_id].last();
                    &&& timestamp_text(stored.submitted_at)
                    &&& stored == pending_claim(claim, stored.submitted_at)
                    &&& after.claims() == self.claims().insert(
                        player_id,
                        claims_or_empty(self.claims(), player_id).push(stored),
                    )
                    &&& r matches Ok(c) ==> c@ == stored
                    &&& uuid_bits_of(player_id) is None ==> (r matches Err(e) && invalid_player_id(e))
                    &&& storage_answered(
                        self.storage_calls(),
                        after.storage_calls(),
                        save_plan(player_id, claims_or_empty(after.claims(), player_id)),
                        r,
                    )
                    &&& claim_index(after.claims()[player_id], claim.claim_id@) == Some(
                        claims_or_empty(self.claims(), player_id).len() as int,
                    )
                },
            })
    }

    /// Records a pending claim for `player_id`; a claim whose id is already
    /// recorded for the player is answered with the recorded one and
    /// changes nothing.
    pub fn submit_achievement_claim(&mut self, player_id: &str, claim: AchievementClaimInput) -> (r: Result<
        AchievementClaim,
        ProfileError,
    >)
        ensures
            old(self).claim_submitted(*final(self), r, player_id@, claim),
    {
        if self.profiles.get(player_id).is_none() {
            return Err(ProfileError::new(ProfileErrorKind::NotFound, "profile not found"));
        }
        match self.achievement_claims.get(player_id) {
            Some(claims) => match position_of_claim(claims, claim.claim_id.as_str()) {
                Some(i) => {
                    return Ok(claims[i].duplicate());
                },
                None => {},
            },
            None => {
                proof {
                    assert(claims_or_empty(old(self).claims(), player_id@) =~= Seq::<AchievementClaimView>::empty());
                    assert(!first_claim_at(Seq::<AchievementClaimView>::empty(), claim.claim_id@, choose|i: int| first_claim_at(Seq::<AchievementClaimView>::empty(), claim.claim_id@, i)));
                }
            },
        }
        let ghost input = claim;
        let stored = AchievementClaim {
            developer: claim.developer,
            game: claim.game,
            achievement_id: claim.achievement_id,
            version: claim.version,
            claim_id: claim.claim_id,
            session_id: claim.session_id,
            client_sequence: claim.client_sequence,
            claimed_at: claim.claimed_at,
            evidence: claim.evidence,
            submitted_at: now_rfc3339(),
            status: AchievementClaimStatus::Pending,
            reviewed_at: None,
            reviewer: None,
            review_note: None,
            awarded_transaction_id: None,
            awarded_block_hash: None,
            canonical_envelope: None,
            acknowledgement: None,
        };
        assert(stored@ == pending_claim(input, stored@.submitted_at));
        proof {
            lemma_claim_index_push(claims_or_empty(old(self).claims(), player_id@), stored@);
        }
        self.push_claim(player_id, stored.duplicate());
        match self.persist_claims(player_id) {
            Err(e) => Err(e),
            Ok(()) => Ok(stored),
        }
    }

    /// Replaces the vector of `player_id`'s profile and logs the profile.
    pub fn set_vector(&mut self, player_id: &str, vec: BitVec) -> (r: Result<(), ProfileError>)
        ensures
            final(self).rewards() == old(self).rewards(),
            final(self).claims() == old(self).claims(),
            !old(self).profiles().contains_key(player_id@) ==> {
                &&& r matches Err(e) && profile_missing(e)
                &&& final(self).profiles() == old(self).profiles()
                &&& final(self).chain() == old(self).chain()
                &&& final(self).storage_calls() == old(self).storage_calls()
            },
            old(self).profiles().contains_key(player_id@) ==> {
                let p = with_vector(old(self).profiles()[player_id@], vec.dim, vec.lanes@);
                &&& final(self).profiles() == old(self).profiles().insert(player_id@, p)
                &&& appended_one(old(self).chain(), final(self).chain())
                &&& old(self).chain().len() > 0 ==> logs_profile(final(self).chain().last().transactions@[0], p)
                &&& r is Err ==> uuid_bits_of(p.player_id) is Some && old(self).chain().len() > 0
                &&& storage_answered(
                    old(self).storage_calls(),
                    final(self).storage_calls(),
                    block_plan(p.player_id, final(self).chain()),
                    r,
                )
            },
    {
        let ghost dim = vec.dim;
        let ghost lanes = vec.lanes@;
        match self.profiles.get_mut(player_id) {
            Some(profile) => {
                profile.set_vector(vec);
                let cloned = profile.duplicate();
                proof {
                    assert(self.profiles() =~= old(self).profiles().insert(
                        player_id@,
                        with_vector(old(self).profiles()[player_id@], dim, lanes),
                    ));
                    assert(cloned@ == with_vector(old(self).profiles()[player_id@], dim, lanes));
                }
                let r = self.log_change(&cloned);
                assert(old(self).chain().len() > 0 ==> logs_profile(self.chain().last().transactions@[0], cloned@));
                r
            },
            None => {
                assert(old(self).profiles().dom() =~= old(self).profiles.map().dom());
                Err(ProfileError::new(ProfileErrorKind::NotFound, "profile not found"))
            },
        }
    }

    /// XORs `vec` into the vector of `player_id`'s profile and logs the
    /// profile.
    pub fn merge_vector(&mut self, player_id: &str, vec: &BitVec) -> (r: Result<(), ProfileError>)
        requires
            old(self).profiles().contains_key(player_id@) ==> old(self).profiles()[player_id@].dim
                == vec.dim,
        ensures
            final(self).rewards() == old(self).rewards(),
            final(self).claims() == old(self).claims(),
            !old(self).profiles().contains_key(player_id@) ==> {
                &&& r matches Err(e) && profile_missing(e)
                &&& final(self).profiles() == old(self).profiles()
                &&& final(self).chain() == old(self).chain()
                &&& final(self).storage_calls() == old(self).storage_calls()
            },
            old(self).profiles().contains_key(player_id@) ==> {
                let before = old(self).profiles()[player_id@];
                let p = with_vector(before, vec.dim, xor_lanes(before.lanes, vec.lanes@));
                &&& final(self).profiles() == old(self).profiles().insert(player_id@, p)
                &&& appended_one(old(self).chain(), final(self).chain())
                &&& old(self).chain().len() > 0 ==> logs_profile(final(self).chain().last().transactions@[0], p)
                &&& r is Err ==> uuid_bits_of(p.player_id) is Some && old(self).chain().len() > 0
                &&& storage_answered(
                    old(self).storage_calls(),
                    final(self).storage_calls(),
                    block_plan(p.player_id, final(self).chain()),
                    r,
                )
            },
    {
        match self.profiles.get_mut(player_id) {
            Some(profile) => {
                let ghost before = profile@;
                let new_vec = profile.profile_vec.xor(vec);
                assert(new_vec.lanes@ =~= xor_lanes(before.lanes, vec.lanes@));
                profile.set_vector(new_vec);
                let cloned = profile.duplicate();
                proof {
                    assert(self.profiles() =~= old(self).profiles().insert(
                        player_id@,
                        with_vector(before, vec.dim, xor_lanes(before.lanes, vec.lanes@)),
                    ));
                    assert(cloned@ == with_vector(before, vec.dim, xor_lanes(before.lanes, vec.lanes@)));
                }
                let r = self.log_change(&cloned);
                assert(old(self).chain().len() > 0 ==> logs_profile(self.chain().last().transactions@[0], cloned@));
                r
            },
            None => {
                assert(old(self).profiles().dom() =~= old(self).profiles.map().dom());
                Err(ProfileError::new(ProfileErrorKind::NotFound, "profile not found"))
            },
        }
    }

    /// Stores the claim for the envelope the authority answered and
    /// persists the player's claims.
    fn store_canonical_claim(
        &mut self,
        player_id: &str,
        envelope: EabClaimEnvelope,
        acknowledgement: EabClaimAcknowledgement,
    ) -> (r: Result<(), ProfileError>)
        ensures
            final(self).profiles() == old(self).profiles(),
            final(self).rewards() == old(self).rewards(),
            final(self).chain() == old(self).chain(),
            final(self).claims() == old(self).claims().insert(
                player_id@,
                claims_or_empty(old(self).claims(), player_id@).push(
                    canonical_claim(envelope@, acknowledgement@),
                ),
            ),
            uuid_bits_of(player_id@) is None ==> (r matches Err(e) && invalid_player_id(e)),
            storage_answered(
                old(self).storage_calls(),
                final(self).storage_calls(),
                save_plan(player_id@, final(self).claims()[player_id@]),
                r,
            ),
    {
        let promoted = acknowledgement.disposition == EabClaimDisposition::Acknowledged;
        let record = &envelope.record;
        let stored = AchievementClaim {
            developer: copy_string(&record.developer),
            game: copy_string(&record.game),
            achievement_id: copy_string(&record.achievement_id),
            version: record.version,
            claim_id: copy_string(&record.claim_id),
            session_id: copy_string(&record.session_id),
            client_sequence: record.client_sequence,
            claimed_at: copy_string(&record.earned_at_local),
            evidence: copy_opt_string(&record.evidence),
            submitted_at: copy_string(&acknowledgement.first_observed_at),
            status: if promoted {
                AchievementClaimStatus::Promoted
            } else {
                AchievementClaimStatus::Rejected
            },
            reviewed_at: copy_opt_string(&acknowledgement.decided_at),
            reviewer: Some(String::from_str("eab-authority")),
            review_note: Some(String::from_str(decision_code_text(acknowledgement.code))),
            awarded_transaction_id: match &acknowledgement.award {
                Some(award) => Some(copy_string(&award.transaction_id)),
                None => None,
            },
            awarded_block_hash: match &acknowledgement.award {
                Some(award) => Some(copy_string(&award.block_hash)),
                None => None,
            },
            canonical_envelope: None,
            acknowledgement: None,
        };
        let mut stored = stored;
        stored.canonical_envelope = Some(envelope);
        stored.acknowledgement = Some(acknowledgement);
        assert(stored@ == canonical_claim(envelope@, acknowledgement@));
        self.push_claim(player_id, stored);
        proof {
            assert(claims_or_empty(self.claims(), player_id@) == self.claims()[player_id@]);
        }
        self.persist_claims(player_id)
    }

    /// The newest award on the ledger of the achievement of `definition` to
    /// `player_id`.
    fn existing_achievement_award_reference(&self, player_id: &str, definition: &AchievementDefinition) -> (r: Option<EabAwardReference>)
        ensures
            award_view(r) == latest_award(self.chain(), player_id@, definition@),
    {
        let chain = &self.ledger.chain;
        let mut i: usize = chain.len();
        assert(chain@.subrange(0, i as int) =~= chain@);
        while i > 0
            invariant
                i <= chain@.len(),
                chain@ == self.chain(),
                latest_award(self.chain(), player_id@, definition@) == latest_award(
                    chain@.subrange(0, i as int),
                    player_id@,
                    definition@,
                ),
            decreases i,
        {
            let block = &chain[i - 1];
            let ghost prefix = chain@.subrange(0, i as int);
            assert(prefix.drop_last() =~= chain@.subrange(0, i - 1));
            assert(prefix.last() == *block);
            let txs = &block.transactions;
            let mut j: usize = txs.len();
            assert(txs@.subrange(0, j as int) =~= txs@);
            while j > 0
                invariant
                    0 < i <= chain@.len(),
                    chain@ == self.chain(),
                    *block == chain@[i - 1],
                    txs@ == block.transactions@,
                    prefix == chain@.subrange(0, i as int),
                    prefix.drop_last() == chain@.subrange(0, i - 1),
                    prefix.last() == *block,
                    latest_award(self.chain(), player_id@, definition@) == latest_award(
                        prefix,
                        player_id@,
                        definition@,
                    ),
                    j <= txs@.len(),
                    latest_award_tx(txs@, player_id@, definition@) == latest_award_tx(
                        txs@.subrange(0, j as int),
                        player_id@,
                        definition@,
                    ),
                decreases j,
            {
                let t = &txs[j - 1];
                let ghost tp = txs@.subrange(0, j as int);
                assert(tp.drop_last() =~= txs@.subrange(0, j - 1));
                assert(tp.last() == *t);
                if let TransactionData::Achievement(achievement) = &t.details {
                    if str_eq(t.player_id.as_str(), player_id) && str_eq(
                        achievement.developer.as_str(),
                        definition.developer(),
                    ) && str_eq(achievement.game.as_str(), definition.game()) && str_eq(
                        achievement.achievement_id.as_str(),
                        definition.achievement_id(),
                    ) {
                        assert(awards_achievement_of(tp.last(), player_id@, definition@));
                        assert(latest_award_tx(txs@, player_id@, definition@) == Some(j - 1));
                        return Some(
                            EabAwardReference {
                                transaction_id: copy_string(&t.transaction_id),
                                block_hash: copy_string(&block.block_hash),
                            },
                        );
                    }
                }
                j = j - 1;
            }
            assert(txs@.subrange(0, 0) =~= Seq::<Transaction>::empty());
            i = i - 1;
        }
        assert(chain@.subrange(0, 0) =~= Seq::<Block>::empty());
        None
    }

    /// Applies the definition's policy to a canonical claim for the
    /// authenticated `player_id` and answers it. A claim id already
    /// recorded for the player is answered with the stored answer when the
    /// envelope is the same, and as a conflict otherwise; neither changes
    /// anything. A new claim is refused by policy, acknowledged against an
    /// award already on the ledger, or acknowledged with a new award; its
    /// answer is stored with it.
    pub fn acknowledge_canonical_claim(
        &mut self,
        player_id: &str,
        envelope: EabClaimEnvelope,
        definition: Option<&AchievementDefinition>,
    ) -> (r: Result<EabClaimAcknowledgement, ProfileError>)
        ensures
            old(self).acknowledged_claim(
                *final(self),
                r,
                player_id@,
                envelope@,
                definition_view(definition),
            ),
    {
        if self.profiles.get(player_id).is_none() {
            return Err(ProfileError::new(ProfileErrorKind::NotFound, "profile not found"));
        }
        let ghost known = claims_or_empty(self.claims(), player_id@);
        match self.achievement_claims.get(player_id) {
            Some(claims) => match position_of_claim(claims, envelope.claim_id()) {
                Some(i) => {
                    let existing = &claims[i];
                    assert(known[i as int] == existing@);
                    if let Some(stored_envelope) = &existing.canonical_envelope {
                        if stored_envelope.same_as(&envelope) {
                            if let Some(a) = &existing.acknowledgement {
                                return Ok(a.duplicate());
                            }
                        }
                    }
                    let a = claim_acknowledgement(
                        &envelope,
                        EabClaimDisposition::Conflict,
                        EabClaimDecisionCode::ClaimIdPayloadMismatch,
                        now_rfc3339(),
                        None,
                    );
                    return Ok(a);
                },
                None => {},
            },
            None => {
                proof {
                    assert(known =~= Seq::<AchievementClaimView>::empty());
                    assert(!first_claim_at(known, envelope@.record.claim_id, choose|i: int| first_claim_at(known, envelope@.record.claim_id, i)));
                }
            },
        }
        let first_observed_at = now_rfc3339();
        match canonical_claim_policy_decision(&envelope, definition) {
            Some((disposition, code)) => {
                let acknowledgement = claim_acknowledgement(
                    &envelope,
                    disposition,
                    code,
                    first_observed_at,
                    None,
                );
                let answer = acknowledgement.duplicate();
                proof {
                    lemma_claim_index_push(known, canonical_claim(envelope@, acknowledgement@));
                }
                let ghost b0 = self.storage_calls();
                let r1 = self.store_canonical_claim(player_id, envelope, acknowledgement);
                let r = match r1 {
                    Err(e) => Err(e),
                    Ok(()) => Ok(answer),
                };
                proof {
                    lemma_answer_same(b0, self.storage_calls(), save_plan(player_id@, self.claims()[player_id@]), r1, r);
                }
                return r;
            },
            None => {},
        }
        let definition = match definition {
            Some(d) => d,
            None => {
                return Err(ProfileError::new(ProfileErrorKind::Other, "definition not found"));
            },
        };
        let ghost before = *self;
        let ghost b0 = self.storage_calls();
        let (code, award) = match self.existing_achievement_award_reference(player_id, definition) {
            Some(existing) => (EabClaimDecisionCode::AlreadyAcknowledged, Some(existing)),
            None => match self.award_achievement(player_id, definition) {
                Err(e) => {
                    proof {
                        reveal(award_step);
                        let b1 = self.storage_calls();
                        let p1 = block_plan(player_id@, self.chain());
                        let p2 = save_plan(player_id@, self.claims()[player_id@]);
                        if uuid_bits_of(player_id@) is Some && before.chain().len() > 0 {
                            assert(p1.len() == 1);
                            lemma_answered_stop(b0, b1, p1, p2, Err::<AwardRecord, ProfileError>(e), Err::<EabClaimAcknowledgement, ProfileError>(e));
                        } else if before.chain().len() > 0 {
                            assert(p1 + p2 =~= Seq::<spec_fn(StorageWrite) -> bool>::empty());
                        }
                    }
                    return Err(e);
                },
                Ok(created) => (
                    EabClaimDecisionCode::Acknowledged,
                    Some(
                        EabAwardReference {
                            transaction_id: created.transaction_id,
                            block_hash: created.block_hash,
                        },
                    ),
                ),
            },
        };
        let acknowledgement = claim_acknowledgement(
            &envelope,
            EabClaimDisposition::Acknowledged,
            code,
            first_observed_at,
            award,
        );
        let answer = acknowledgement.duplicate();
        proof {
            lemma_claim_index_push(known, canonical_claim(envelope@, acknowledgement@));
        }
        let ghost b1 = self.storage_calls();
        let r2 = self.store_canonical_claim(player_id, envelope, acknowledgement);
        let r = match r2 {
            Err(e) => Err(e),
            Ok(()) => Ok(answer),
        };
        proof {
            let b2 = self.storage_calls();
            let p2 = save_plan(player_id@, self.claims()[player_id@]);
            lemma_answer_same(b1, b2, p2, r2, r);
            if code == EabClaimDecisionCode::Acknowledged && before.chain().len() > 0 {
                reveal(award_step);
                let p1 = block_plan(player_id@, self.chain());
                let ok: Result<(), ProfileError> = Ok(());
                if uuid_bits_of(player_id@) is Some {
                    assert(p1.len() == 1);
                    assert(p2.len() == 1);
                }
                lemma_answered_then(b0, b1, b2, p1, p2, ok, r);
            }
        }
        r
    }

    /// Replaces the claim at index `i` of `player_id`'s claims.
    fn replace_claim(&mut self, player_id: &str, i: usize, c: AchievementClaim)
        requires
            old(self).claims().contains_key(player_id@),
            i < old(self).claims()[player_id@].len(),
        ensures
            final(self).storage_calls() == old(self).storage_calls(),
            old(self).same_but_claims(*final(self)),
            final(self).claims() == old(self).claims().insert(
                player_id@,
                old(self).claims()[player_id@].update(i as int, c@),
            ),
    {
        let ghost cv = c@;
        match self.achievement_claims.get_mut(player_id) {
            Some(claims) => {
                let ghost before = claims@;
                claims.set(i, c);
                proof {
                    assert(claims_view(claims@) =~= claims_view(before).update(i as int, cv));
                }
            },
            None => {
                assert(old(self).claims().dom() =~= old(self).achievement_claims.map().dom());
            },
        }
        assert(self.claims() =~= old(self).claims().insert(
            player_id@,
            old(self).claims()[player_id@].update(i as int, cv),
        ));
    }

    /// Marks the pending claim at index `i` promoted and reviewed, awards
    /// the achievement and records the award on the claim.
    fn promote_pending(
        &mut self,
        player_id: &str,
        claim_index: usize,
        current: AchievementClaim,
        reviewer: &str,
        review_note: Option<String>,
        achievement: &AchievementDefinition,
    ) -> (r: Result<(AchievementClaim, Option<AwardRecord>), ProfileError>)
        requires
            old(self).profiles().contains_key(player_id@),
            old(self).claims().contains_key(player_id@),
            claim_index < old(self).claims()[player_id@].len(),
            current@ == old(self).claims()[player_id@][claim_index as int],
        ensures
            old(self).promotion_done(
                *final(self),
                r,
                player_id@,
                claim_index as int,
                reviewer@,
                opt_view(review_note),
                achievement@,
            ),
    {
        let ghost known = self.claims()[player_id@];
        let mut updated = current;
        updated.status = AchievementClaimStatus::Promoted;
        updated.reviewed_at = Some(now_rfc3339());
        updated.reviewer = Some(String::from_str(reviewer));
        updated.review_note = review_note;
        let ghost marked = updated@;
        self.replace_claim(player_id, claim_index, updated.duplicate());
        let ghost after_mark = *self;
        let ghost b0 = self.storage_calls();
        let ghost p1 = save_plan(player_id@, known.update(claim_index as int, marked));
        proof {
            assert(claims_or_empty(self.claims(), player_id@) == known.update(claim_index as int, marked));
        }
        let r1 = self.persist_claims(player_id);
        let ghost b1 = self.storage_calls();
        if let Err(e) = r1 {
            let r: Result<(AchievementClaim, Option<AwardRecord>), ProfileError> = Err(e);
            proof {
                let p2 = block_plan(player_id@, self.chain());
                let p3 = save_plan(player_id@, self.claims()[player_id@]);
                if uuid_bits_of(player_id@) is Some {
                    lemma_answered_stop(b0, b1, p1, p2 + p3, r1, r);
                    assert(p1 + p2 + p3 =~= p1 + (p2 + p3));
                } else {
                    assert(p1 + p2 + p3 =~= Seq::<spec_fn(StorageWrite) -> bool>::empty());
                    lemma_no_calls(b0);
                }
            }
            return r;
        }
        let ghost chain1 = self.chain();
        let r2 = self.award_achievement(player_id, achievement);
        let ghost b2 = self.storage_calls();
        proof {
            if uuid_bits_of(player_id@) is Some && old(self).chain().len() > 0 {
                assert(chain1.len() > 0);
                reveal(award_step);
                assert(self.chain().len() > 0);
                let p2 = block_plan(player_id@, self.chain());
                assert(p2.len() == 1);
                let a2 = b2.subrange(b1.len() as int, b2.len() as int);
                assert(a2.len() >= 1);
                assert(b1.len() > b0.len()) by {
                    let a1 = b1.subrange(b0.len() as int, b1.len() as int);
                    assert(p1.len() == 1);
                }
            }
        }
        let award = match r2 {
            Err(e) => {
                let r: Result<(AchievementClaim, Option<AwardRecord>), ProfileError> = Err(e);
                proof {
                    let p2 = block_plan(player_id@, self.chain());
                    let p3 = save_plan(player_id@, self.claims()[player_id@]);
                    if uuid_bits_of(player_id@) is Some && old(self).chain().len() > 0 {
                        lemma_answered_then(b0, b1, b2, p1, p2, r1, r2);
                        lemma_answered_stop(b0, b2, p1 + p2, p3, r2, r);
                    }
                }
                return r;
            },
            Ok(award) => award,
        };
        updated.awarded_transaction_id = Some(copy_string(&award.transaction_id));
        updated.awarded_block_hash = Some(copy_string(&award.block_hash));
        proof {
            assert(self.claims() == after_mark.claims());
        }
        self.replace_claim(player_id, claim_index, updated.duplicate());
        proof {
            assert(known.update(claim_index as int, marked).update(claim_index as int, updated@)
                =~= known.update(claim_index as int, updated@));
            assert(self.claims() =~= old(self).claims().insert(
                player_id@,
                known.update(claim_index as int, updated@),
            ));
        }
        let ghost p3 = save_plan(player_id@, self.claims()[player_id@]);
        proof {
            assert(claims_or_empty(self.claims(), player_id@) == self.claims()[player_id@]);
        }
        let r3 = self.persist_claims(player_id);
        let r = match r3 {
            Err(e) => Err(e),
            Ok(()) => Ok((updated, Some(award))),
        };
        proof {
            let b3 = self.storage_calls();
            let p2 = block_plan(player_id@, self.chain());
            if old(self).chain().len() > 0 {
                lemma_answered_then(b0, b1, b2, p1, p2, r1, r2);
                lemma_answered_then(b0, b2, b3, p1 + p2, p3, r2, r3);
                lemma_answer_same(b0, b3, p1 + p2 + p3, r3, r);
            }
        }
        r
    }

    /// Marks the claim at index `i` rejected and reviewed.
    fn reject_reviewed(
        &mut self,
        player_id: &str,
        claim_index: usize,
        current: AchievementClaim,
        reviewer: &str,
        review_note: Option<String>,
    ) -> (r: Result<(AchievementClaim, Option<AwardRecord>), ProfileError>)
        requires
            old(self).claims().contains_key(player_id@),
            claim_index < old(self).claims()[player_id@].len(),
            current@ == old(self).claims()[player_id@][claim_index as int],
        ensures
            ({
                let p = final(self).claims()[player_id@][claim_index as int];
                &&& timestamp_text(p.reviewed_at->0)
                &&& p == reviewed_claim(
                    current@,
                    AchievementClaimStatus::Rejected,
                    p.reviewed_at->0,
                    reviewer@,
                    opt_view(review_note),
                )
                &&& old(self).same_but_claims(*final(self))
                &&& final(self).claims() == old(self).claims().insert(
                    player_id@,
                    old(self).claims()[player_id@].update(claim_index as int, p),
                )
                &&& r matches Ok((u, award)) ==> u@ == p && award is None
                &&& uuid_bits_of(player_id@) is None ==> (r matches Err(e) && invalid_player_id(e))
                &&& storage_answered(
                    old(self).storage_calls(),
                    final(self).storage_calls(),
                    save_plan(player_id@, final(self).claims()[player_id@]),
                    r,
                )
            }),
    {
        let mut updated = current;
        updated.status = AchievementClaimStatus::Rejected;
        updated.reviewed_at = Some(now_rfc3339());
        updated.reviewer = Some(String::from_str(reviewer));
        updated.review_note = review_note;
        self.replace_claim(player_id, claim_index, updated.duplicate());
        let ghost b0 = self.storage_calls();
        proof {
            assert(claims_or_empty(self.claims(), player_id@) == self.claims()[player_id@]);
        }
        let r1 = self.persist_claims(player_id);
        let r = match r1 {
            Err(e) => Err(e),
            Ok(()) => Ok((updated, None)),
        };
        proof {
            lemma_answer_same(b0, self.storage_calls(), save_plan(player_id@, self.claims()[player_id@]), r1, r);
        }
        r
    }

    /// How a review of the first claim of `player_id` with id `claim_id`
    /// went: promoting a pending claim marks it promoted, awards the
    /// achievement and records the award on it; a promoted claim is answered
    /// as it is, and a rejected one cannot be promoted; rejecting marks the
    /// claim rejected, and a promoted claim cannot be rejected.
    pub open spec fn claim_reviewed(
        self,
        after: Self,
        r: Result<(AchievementClaim, Option<AwardRecord>), ProfileError>,
        player_id: Seq<char>,
        claim_id: Seq<char>,
        reviewer: Seq<char>,
        action: AchievementClaimReviewAction,
        note: Option<Seq<char>>,
        achievement: Option<AchievementDefinitionView>,
    ) -> bool {
        &&& (!self.profiles().contains_key(player_id) ==> {
                &&& r matches Err(e) && profile_missing(e)
                &&& self.unchanged(after)
            })
        &&& (self.profiles().contains_key(player_id) ==> {
                let known = claims_or_empty(self.claims(), player_id);
                match claim_index(known, claim_id) {
                    None => {
                        &&& r matches Err(e) && error_is(e, ProfileErrorKind::NotFound, "claim not found"@)
                        &&& self.unchanged(after)
                    },
                    Some(i) => {
                        let c = known[i];
                        match action {
                            AchievementClaimReviewAction::Promote => if c.status
                                == AchievementClaimStatus::Promoted {
                                &&& r matches Ok((u, award)) && u@ == c && award is None
                                &&& self.unchanged(after)
                            } else if c.status == AchievementClaimStatus::Rejected {
                                &&& r matches Err(e) && error_is(
                                    e,
                                    ProfileErrorKind::InvalidInput,
                                    "rejected claim cannot be promoted"@,
                                )
                                &&& self.unchanged(after)
                            } else {
                                match achievement {
                                    None => {
                                        &&& r matches Err(e) && error_is(
                                            e,
                                            ProfileErrorKind::NotFound,
                                            "achievement definition not found"@,
                                        )
                                        &&& self.unchanged(after)
                                    },
                                    Some(d) => self.promotion_done(
                                        after,
                                        r,
                                        player_id,
                                        i,
                                        reviewer,
                                        note,
                                        d,
                                    ),
                                }
                            },
                            AchievementClaimReviewAction::Reject => if c.status
                                == AchievementClaimStatus::Promoted {
                                &&& r matches Err(e) && error_is(
                                    e,
                                    ProfileErrorKind::InvalidInput,
                                    "promoted claim cannot be rejected"@,
                                )
                                &&& self.unchanged(after)
                            } else {
                                let p = after.claims()[player_id][i];
                                &&& timestamp_text(p.reviewed_at->0)
                                &&& p == reviewed_claim(
                                    c,
                                    AchievementClaimStatus::Rejected,
                                    p.reviewed_at->0,
                                    reviewer,
                                    note,
                                )
                                &&& self.same_but_claims(after)
                                &&& after.claims() == self.claims().insert(
                                    player_id,
                                    known.update(i, p),
                                )
                                &&& r matches Ok((u, award)) ==> u@ == p && award is None
                                &&& uuid_bits_of(player_id) is None ==> (r matches Err(e)
                                    && invalid_player_id(e))
                                &&& storage_answered(
                                    self.storage_calls(),
                                    after.storage_calls(),
                                    save_plan(player_id, after.claims()[player_id]),
                                    r,
                                )
                            },
                        }
                    },
                }
            })
    }

    /// Reviews the first claim of `player_id` with id `claim_id`. Promoting
    /// a pending claim marks it promoted, awards the achievement and
    /// records the award on the claim; a promoted claim is answered as it
    /// is, without a second award, and a rejected one cannot be promoted.
    /// Rejecting marks the claim rejected; a promoted claim cannot be
    /// rejected.
    pub fn review_achievement_claim(
        &mut self,
        player_id: &str,
        claim_id: &str,
        reviewer: &str,
        action: AchievementClaimReviewAction,
        review_note: Option<String>,
        achievement: Option<&AchievementDefinition>,
    ) -> (r: Result<(AchievementClaim, Option<AwardRecord>), ProfileError>)
        ensures
            old(self).claim_reviewed(
                *final(self),
                r,
                player_id@,
                claim_id@,
                reviewer@,
                action,
                opt_view(review_note),
                definition_view(achievement),
            ),
    {
        if self.profiles.get(player_id).is_none() {
            return Err(ProfileError::new(ProfileErrorKind::NotFound, "profile not found"));
        }
        let ghost known = claims_or_empty(self.claims(), player_id@);
        let claims = match self.achievement_claims.get(player_id) {
            Some(claims) => claims,
            None => {
                proof {
                    assert(known =~= Seq::<AchievementClaimView>::empty());
                    assert(!first_claim_at(known, claim_id@, choose|i: int| first_claim_at(known, claim_id@, i)));
                }
                return Err(ProfileError::new(ProfileErrorKind::NotFound, "claim not found"));
            },
        };
        let claim_index = match position_of_claim(claims, claim_id) {
            Some(i) => i,
            None => {
                return Err(ProfileError::new(ProfileErrorKind::NotFound, "claim not found"));
            },
        };
        let current = claims[claim_index].duplicate();
        assert(current@ == known[claim_index as int]);
        match action {
            AchievementClaimReviewAction::Promote => {
                if current.status == AchievementClaimStatus::Promoted {
                    return Ok((current, None));
                }
                if current.status == AchievementClaimStatus::Rejected {
                    return Err(
                        ProfileError::new(
                            ProfileErrorKind::InvalidInput,
                            "rejected claim cannot be promoted",
                        ),
                    );
                }
                let achievement = match achievement {
                    Some(a) => a,
                    None => {
                        return Err(
                            ProfileError::new(
                                ProfileErrorKind::NotFound,
                                "achievement definition not found",
                            ),
                        );
                    },
                };
                self.promote_pending(player_id, claim_index, current, reviewer, review_note, achievement)
            },
            AchievementClaimReviewAction::Reject => {
                if current.status == AchievementClaimStatus::Promoted {
                    return Err(
                        ProfileError::new(
                            ProfileErrorKind::InvalidInput,
                            "promoted claim cannot be rejected",
                        ),
                    );
                }
                self.reject_reviewed(player_id, claim_index, current, reviewer, review_note)
            },
        }
    }

    /// Applies the transactions of `block` to the profiles and rewards.
    fn replay_block(&mut self, block: &Block, Ghost(done): Ghost<Seq<Transaction>>)
        requires
            old(self).profiles() == replay_profiles(done),
            old(self).rewards() == replay_rewards(done),
        ensures
            final(self).profiles() == replay_profiles(done + block.transactions@),
            final(self).rewards() == replay_rewards(done + block.transactions@),
            final(self).claims() == old(self).claims(),
            final(self).chain() == old(self).chain(),
            final(self).storage_calls() == old(self).storage_calls(),
    {
        let txs = &block.transactions;
        let mut k: usize = 0;
        while k < txs.len()
            invariant
                k <= txs@.len(),
                txs@ == block.transactions@,
                self.profiles() == replay_profiles(done + txs@.subrange(0, k as int)),
                self.rewards() == replay_rewards(done + txs@.subrange(0, k as int)),
                self.claims() == old(self).claims(),
                self.chain() == old(self).chain(),
                self.storage_calls() == old(self).storage_calls(),
            decreases txs@.len() - k,
        {
            let txn = &txs[k];
            let ghost cur = done + txs@.subrange(0, k + 1);
            proof {
                assert(cur.drop_last() =~= done + txs@.subrange(0, k as int));
                assert(cur.last() == *txn);
            }
            match &txn.details {
                TransactionData::ProfileChange(change) => {
                    self.profiles.insert(copy_string(&change.profile.player_id), change.profile.duplicate());
                    assert(self.profiles() =~= replay_profiles(cur));
                },
                TransactionData::Entitlement(entitlement) => {
                    self.push_entitlement(txn.player_id.as_str(), entitlement.duplicate());
                },
                TransactionData::Achievement(achievement) => {
                    self.push_achievement(txn.player_id.as_str(), achievement.duplicate());
                },
            }
            k = k + 1;
        }
        assert(txs@.subrange(0, k as int) =~= txs@);
    }

    /// The service restored from what the storage held: profiles and
    /// rewards replayed from each player's accepted blocks, the claims of
    /// each player, and a ledger of the genesis block followed by the
    /// accepted blocks sorted by timestamp, each hash once.
    pub fn restore(storage: S, players: Vec<LoadedPlayer>) -> (r: Self)
        ensures
            r.restored_from(players@),
    {
        let mut service = PlayerProfileService {
            profiles: Table::new(),
            rewards: Table::new(),
            achievement_claims: Table::new(),
            ledger: Blockchain::new(),
            storage,
            calls: Ghost(Seq::empty()),
            reads: Ghost(Seq::empty()),
        };
        proof {
            assert(service.profiles() =~= replay_profiles(Seq::empty()));
            assert(service.rewards() =~= replay_rewards(Seq::empty()));
            assert(service.claims() =~= restored_claims(Seq::empty()));
        }
        let ghost ps = players@;
        let n = players.len();
        let mut remaining = players;
        let mut verified_blocks: Vec<Block> = Vec::new();
        let mut i: usize = 0;
        while remaining.len() > 0
            invariant
                i <= ps.len(),
                n == ps.len(),
                remaining@ == ps.subrange(i as int, ps.len() as int),
                verified_blocks@ == accepted_blocks(ps.subrange(0, i as int)),
                service.profiles() == replay_profiles(block_txs(verified_blocks@)),
                service.rewards() == replay_rewards(block_txs(verified_blocks@)),
                service.claims() == restored_claims(ps.subrange(0, i as int)),
                service.chain().len() == 1,
                is_genesis(service.chain()[0]),
                service.storage_calls() == Seq::<StorageCall>::empty(),
            decreases remaining@.len(),
        {
            let player = remaining.remove(0);
            let ghost prefix = ps.subrange(0, i + 1);
            proof {
                assert(prefix.drop_last() =~= ps.subrange(0, i as int));
                assert(prefix.last() == player);
            }
            let LoadedPlayer { id, blocks, claims } = player;
            match blocks {
                Some(b) => {
                    let (mut valid, _quarantined) = verify_player_blocks(b);
                    let ghost acc = verified_blocks@;
                    let mut j: usize = 0;
                    while j < valid.len()
                        invariant
                            j <= valid@.len(),
                            service.profiles() == replay_profiles(block_txs(acc + valid@.subrange(0, j as int))),
                            service.rewards() == replay_rewards(block_txs(acc + valid@.subrange(0, j as int))),
                            service.claims() == restored_claims(ps.subrange(0, i as int)),
                            service.chain().len() == 1,
                            is_genesis(service.chain()[0]),
                            service.storage_calls() == Seq::<StorageCall>::empty(),
                        decreases valid@.len() - j,
                    {
                        let ghost cur = acc + valid@.subrange(0, j + 1);
                        proof {
                            assert(cur.drop_last() =~= acc + valid@.subrange(0, j as int));
                            assert(cur.last() == valid@[j as int]);
                        }
                        service.replay_block(&valid[j], Ghost(block_txs(acc + valid@.subrange(0, j as int))));
                        j = j + 1;
                    }
                    assert(valid@.subrange(0, j as int) =~= valid@);
                    verified_blocks.append(&mut valid);
                },
                None => {
                    assert(verified_blocks@ =~= verified_blocks@ + Seq::<Block>::empty());
                },
            }
            match claims {
                Some(c) => {
                    if c.len() > 0 {
                        let key = uuid_text_of(id);
                        let ghost cv = claims_view(c@);
                        service.achievement_claims.insert(key, c);
                        assert(service.claims() =~= restored_claims(ps.subrange(0, i as int)).insert(
                            hyphenated_uuid(id),
                            cv,
                        ));
                    }
                },
                None => {},
            }
            i = i + 1;
        }
        assert(ps.subrange(0, i as int) =~= ps);
        let sorted = sort_blocks_by_time(verified_blocks);
        let ghost g = service.ledger.chain@[0];
        push_first_by_hash(&mut service.ledger.chain, sorted);
        assert(service.chain().drop_first() =~= first_by_hash(sort_by_time(accepted_blocks(ps))));
        service
    }

    /// The service over `storage`, restored from what it holds; a storage
    /// that cannot list its players gives an empty service.
    pub fn new(storage: S) -> (r: Self)
        ensures
            r.storage_reads().len() >= 1,
            r.storage_reads()[0] matches StorageRead::ListPlayers { result } && match result {
                Err(_) => r.storage_reads().len() == 1 && r.restored_from(Seq::<LoadedPlayer>::empty()),
                Ok(ids) => {
                    &&& loads_follow(r.storage_reads().drop_first(), ids@)
                    &&& r.restored_from(players_of(r.storage_reads().drop_first()))
                },
            },
    {
        let mut players: Vec<LoadedPlayer> = Vec::new();
        let listing = storage.list_player_ids();
        let ghost listed = listing;
        let ghost mut log: Seq<StorageRead> = seq![StorageRead::ListPlayers { result: listed }];
        match listing {
            Ok(ids) => {
                let mut k: usize = 0;
                while k < ids.len()
                    invariant
                        k <= ids@.len(),
                        listed == Ok::<Vec<u128>, ProfileError>(ids),
                        log.len() >= 1,
                        log[0] == (StorageRead::ListPlayers { result: listed }),
                        loads_follow(log.drop_first(), ids@.subrange(0, k as int)),
                        players@ == players_of(log.drop_first()),
                    decreases ids@.len() - k,
                {
                    let id = ids[k];
                    let loaded_b = storage.load_blocks(id);
                    let ghost gb = loaded_b;
                    let blocks = match loaded_b {
                        Ok(b) => Some(b),
                        Err(_) => None,
                    };
                    let loaded_c = storage.load_achievement_claims(id);
                    let ghost gc = loaded_c;
                    let claims = match loaded_c {
                        Ok(c) => Some(c),
                        Err(_) => None,
                    };
                    let ghost before = log;
                    proof {
                        let rb = StorageRead::LoadBlocks { player: id, result: gb };
                        let rc = StorageRead::LoadClaims { player: id, result: gc };
                        log = log.push(rb).push(rc);
                        let loads = log.drop_first();
                        let old_loads = before.drop_first();
                        assert(loads =~= old_loads.push(rb).push(rc));
                        let n = ids@.subrange(0, k + 1);
                        assert(n =~= ids@.subrange(0, k as int).push(id));
                        assert forall|j: int| 0 <= j < n.len() implies {
                            &&& (#[trigger] loads[2 * j]) is LoadBlocks
                            &&& loads[2 * j + 1] is LoadClaims
                            &&& read_player(loads[2 * j]) == n[j]
                            &&& read_player(loads[2 * j + 1]) == n[j]
                        } by {
                            if j < k {
                                assert(loads[2 * j] == old_loads[2 * j]);
                                assert(loads[2 * j + 1] == old_loads[2 * j + 1]);
                            } else {
                                assert(loads[2 * j] == rb);
                                assert(loads[2 * j + 1] == rc);
                            }
                        }
                    }
                    let ghost prev_players = players@;
                    players.push(LoadedPlayer { id, blocks, claims });
                    proof {
                        let loads = log.drop_first();
                        assert(players@ =~= players_of(loads)) by {
                            assert(players_of(loads).len() == k + 1);
                            assert forall|j: int| 0 <= j < k + 1 implies players@[j] == players_of(loads)[j] by {
                                if j < k {
                                    assert(loads[2 * j] == before.drop_first()[2 * j]);
                                    assert(loads[2 * j + 1] == before.drop_first()[2 * j + 1]);
                                    assert(players@[j] == prev_players[j]);
                                } else {
                                    assert(loads[2 * j] == (StorageRead::LoadBlocks { player: id, result: gb }));
                                    assert(loads[2 * j + 1] == (StorageRead::LoadClaims { player: id, result: gc }));
                                }
                            }
                        }
                    }
                    k = k + 1;
                }
                assert(ids@.subrange(0, k as int) =~= ids@);
            },
            Err(_) => {
                assert(log.drop_first() =~= Seq::<StorageRead>::empty());
            },
        }
        let ghost loaded = players@;
        let mut r = Self::restore(storage, players);
        proof {
            r.reads@ = log;
        }
        assert(r.restored_from(loaded));
        r
    }

    /// The receipt of the newest transaction of `player_id` on the ledger.
    pub fn latest_award_receipt(&self, player_id: &str) -> (r: Option<AwardRecord>)
        ensures
            match latest_receipt_at(self.chain(), player_id@) {
                Some((b, j)) => r matches Some(rec) && 0 <= b < self.chain().len() && record_of_tx(
                    rec,
                    self.chain()[b],
                    j,
                ),
                None => r is None,
            },
    {
        let chain = &self.ledger.chain;
        let mut i: usize = chain.len();
        assert(chain@.subrange(0, i as int) =~= chain@);
        while i > 0
            invariant
                i <= chain@.len(),
                chain@ == self.chain(),
                latest_receipt_at(self.chain(), player_id@) == latest_receipt_at(
                    chain@.subrange(0, i as int),
                    player_id@,
                ),
            decreases i,
        {
            let block = &chain[i - 1];
            let ghost prefix = chain@.subrange(0, i as int);
            assert(prefix.drop_last() =~= chain@.subrange(0, i - 1));
            assert(prefix.last() == *block);
            let txs = &block.transactions;
            let mut j: usize = txs.len();
            assert(txs@.subrange(0, j as int) =~= txs@);
            while j > 0
                invariant
                    0 < i <= chain@.len(),
                    chain@ == self.chain(),
                    *block == chain@[i - 1],
                    txs@ == block.transactions@,
                    prefix == chain@.subrange(0, i as int),
                    prefix.drop_last() == chain@.subrange(0, i - 1),
                    prefix.last() == *block,
                    latest_receipt_at(self.chain(), player_id@) == latest_receipt_at(prefix, player_id@),
                    j <= txs@.len(),
                    latest_tx_of(txs@, player_id@) == latest_tx_of(txs@.subrange(0, j as int), player_id@),
                decreases j,
            {
                let t = &txs[j - 1];
                let ghost tp = txs@.subrange(0, j as int);
                assert(tp.drop_last() =~= txs@.subrange(0, j - 1));
                assert(tp.last() == *t);
                if str_eq(t.player_id.as_str(), player_id) {
                    assert(latest_tx_of(txs@, player_id@) == Some(j - 1));
                    return Some(
                        AwardRecord {
                            player_id: copy_string(&t.player_id),
                            transaction_id: copy_string(&t.transaction_id),
                            transaction_type: copy_string(&t.transaction_type),
                            timestamp: copy_string(&t.timestamp),
                            data_hash: copy_string(&t.data_hash),
                            block_hash: copy_string(&block.block_hash),
                            details: t.details.duplicate(),
                        },
                    );
                }
                j = j - 1;
            }
            assert(txs@.subrange(0, 0) =~= Seq::<Transaction>::empty());
            i = i - 1;
        }
        assert(chain@.subrange(0, 0) =~= Seq::<Block>::empty());
        None
    }
}

} // verus!
