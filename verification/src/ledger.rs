//! The per-player ledger: transactions grouped in hash-linked blocks, each
//! block's hash a SHA-256 over its predecessor's hash, its transactions'
//! JSON, its timestamp, the application version and a proof-of-work nonce.

use vstd::prelude::*;
use vstd::utf8::*;
use crate::digest::{sha256_hex, sha256_hex_of};
use crate::hd::BitVec;
use crate::json::{
    json_decimal, json_key, json_opt_str, json_str, push_byte, write_json_close,
    write_json_decimal, write_json_key, write_json_opt_str, write_json_str, CLOSE_BRACE, COMMA,
};
use crate::text::{copy_opt_string, copy_string, opt_view, push_char, str_eq};
use crate::offline::{now_rfc3339, timestamp_text};

verus! {

/// The application version recorded in each block.
pub const APP_VERSION: &'static str = "0.1.0";

pub const OPEN_BRACKET: u8 = 0x5b;
pub const CLOSE_BRACKET: u8 = 0x5d;

/// A player profile with its hyper-dimensional vector.
#[derive(Debug, Clone)]
pub struct PlayerProfile {
    pub player_id: String,
    pub name: String,
    pub profile_vec: BitVec,
}

/// An entitlement granted to a player.
#[derive(Debug, Clone)]
pub struct Entitlement {
    pub developer: String,
    pub game: String,
    pub entitlement_id: String,
    pub version: u32,
    pub item_type: String,
    pub item_id: String,
    pub quantity: u32,
    pub metadata: String,
    pub expiration_date: Option<String>,
}

/// An achievement awarded to a player.
#[derive(Debug, Clone)]
pub struct Achievement {
    pub developer: String,
    pub game: String,
    pub achievement_id: String,
    pub version: u32,
    pub achievement_name: String,
    pub criteria: String,
    pub timestamp_earned: String,
    pub metadata: String,
}

/// A profile as it was changed, with the hash of its JSON.
#[derive(Debug, Clone)]
pub struct ProfileChange {
    pub profile_hash: String,
    pub profile: PlayerProfile,
}

#[derive(Debug, Clone)]
pub enum TransactionData {
    Entitlement(Entitlement),
    Achievement(Achievement),
    ProfileChange(ProfileChange),
}

#[derive(Debug, Clone)]
pub struct Transaction {
    pub transaction_id: String,
    pub player_id: String,
    pub transaction_type: String,
    pub timestamp: String,
    pub data_hash: String,
    pub signature: String,
    pub details: TransactionData,
}

#[derive(Debug, Clone)]
pub struct Block {
    pub block_hash: String,
    pub previous_block_hash: String,
    pub timestamp: String,
    pub app_version: String,
    pub nonce: u64,
    pub transactions: Vec<Transaction>,
}

// ---------------------------------------------------------------------
// Views and copies.
// ---------------------------------------------------------------------

pub struct PlayerProfileView {
    pub player_id: Seq<char>,
    pub name: Seq<char>,
    pub dim: usize,
    pub lanes: Seq<u64>,
}

impl View for PlayerProfile {
    type V = PlayerProfileView;

    open spec fn view(&self) -> PlayerProfileView {
        PlayerProfileView {
            player_id: self.player_id@,
            name: self.name@,
            dim: self.profile_vec.dim,
            lanes: self.profile_vec.lanes@,
        }
    }
}

pub struct EntitlementView {
    pub developer: Seq<char>,
    pub game: Seq<char>,
    pub entitlement_id: Seq<char>,
    pub version: u32,
    pub item_type: Seq<char>,
    pub item_id: Seq<char>,
    pub quantity: u32,
    pub metadata: Seq<char>,
    pub expiration_date: Option<Seq<char>>,
}

impl View for Entitlement {
    type V = EntitlementView;

    open spec fn view(&self) -> EntitlementView {
        EntitlementView {
            developer: self.developer@,
            game: self.game@,
            entitlement_id: self.entitlement_id@,
            version: self.version,
            item_type: self.item_type@,
            item_id: self.item_id@,
            quantity: self.quantity,
            metadata: self.metadata@,
            expiration_date: opt_view(self.expiration_date),
        }
    }
}

pub struct AchievementView {
    pub developer: Seq<char>,
    pub game: Seq<char>,
    pub achievement_id: Seq<char>,
    pub version: u32,
    pub achievement_name: Seq<char>,
    pub criteria: Seq<char>,
    pub timestamp_earned: Seq<char>,
    pub metadata: Seq<char>,
}

impl View for Achievement {
    type V = AchievementView;

    open spec fn view(&self) -> AchievementView {
        AchievementView {
            developer: self.developer@,
            game: self.game@,
            achievement_id: self.achievement_id@,
            version: self.version,
            achievement_name: self.achievement_name@,
            criteria: self.criteria@,
            timestamp_earned: self.timestamp_earned@,
            metadata: self.metadata@,
        }
    }
}

pub enum TransactionDataView {
    Entitlement(EntitlementView),
    Achievement(AchievementView),
    ProfileChange(Seq<char>, PlayerProfileView),
}

impl View for TransactionData {
    type V = TransactionDataView;

    open spec fn view(&self) -> TransactionDataView {
        match self {
            TransactionData::Entitlement(e) => TransactionDataView::Entitlement(e@),
            TransactionData::Achievement(a) => TransactionDataView::Achievement(a@),
            TransactionData::ProfileChange(c) => TransactionDataView::ProfileChange(
                c.profile_hash@,
                c.profile@,
            ),
        }
    }
}

impl PlayerProfile {
    /// A copy of this profile.
    pub fn duplicate(&self) -> (r: Self)
        ensures
            r@ == self@,
    {
        PlayerProfile {
            player_id: copy_string(&self.player_id),
            name: copy_string(&self.name),
            profile_vec: self.profile_vec.duplicate(),
        }
    }
}

impl Entitlement {
    /// A copy of this entitlement.
    pub fn duplicate(&self) -> (r: Self)
        ensures
            r@ == self@,
    {
        Entitlement {
            developer: copy_string(&self.developer),
            game: copy_string(&self.game),
            entitlement_id: copy_string(&self.entitlement_id),
            version: self.version,
            item_type: copy_string(&self.item_type),
            item_id: copy_string(&self.item_id),
            quantity: self.quantity,
            metadata: copy_string(&self.metadata),
            expiration_date: copy_opt_string(&self.expiration_date),
        }
    }
}

impl Achievement {
    /// A copy of this achievement.
    pub fn duplicate(&self) -> (r: Self)
        ensures
            r@ == self@,
    {
        Achievement {
            developer: copy_string(&self.developer),
            game: copy_string(&self.game),
            achievement_id: copy_string(&self.achievement_id),
            version: self.version,
            achievement_name: copy_string(&self.achievement_name),
            criteria: copy_string(&self.criteria),
            timestamp_earned: copy_string(&self.timestamp_earned),
            metadata: copy_string(&self.metadata),
        }
    }
}

impl TransactionData {
    /// A copy of these details.
    pub fn duplicate(&self) -> (r: Self)
        ensures
            r@ == self@,
    {
        match self {
            TransactionData::Entitlement(e) => TransactionData::Entitlement(e.duplicate()),
            TransactionData::Achievement(a) => TransactionData::Achievement(a.duplicate()),
            TransactionData::ProfileChange(c) => TransactionData::ProfileChange(
                ProfileChange {
                    profile_hash: copy_string(&c.profile_hash),
                    profile: c.profile.duplicate(),
                },
            ),
        }
    }
}

// ---------------------------------------------------------------------
// JSON of the ledger values, appended to what was written before.
// ---------------------------------------------------------------------

/// The items of a `u64` array, after `p`.
pub open spec fn lanes_items(p: Seq<u8>, lanes: Seq<u64>) -> Seq<u8>
    decreases lanes.len(),
{
    if lanes.len() == 0 {
        p
    } else if lanes.len() == 1 {
        p + json_decimal(lanes[0] as nat)
    } else {
        lanes_items(p, lanes.drop_last()) + seq![COMMA] + json_decimal(lanes.last() as nat)
    }
}

pub open spec fn bitvec_json(p: Seq<u8>, v: BitVec) -> Seq<u8> {
    lanes_items(
        p + json_key(true, "dim"@) + json_decimal(v.dim as nat) + json_key(false, "lanes"@) + seq![
            OPEN_BRACKET,
        ],
        v.lanes@,
    ) + seq![CLOSE_BRACKET] + seq![CLOSE_BRACE]
}

pub open spec fn profile_json(p: Seq<u8>, v: PlayerProfile) -> Seq<u8> {
    bitvec_json(
        p + json_key(true, "player_id"@) + json_str(v.player_id@) + json_key(false, "name"@)
            + json_str(v.name@) + json_key(false, "profile_vec"@),
        v.profile_vec,
    ) + seq![CLOSE_BRACE]
}

pub open spec fn entitlement_json(p: Seq<u8>, e: Entitlement) -> Seq<u8> {
    p + json_key(true, "developer"@) + json_str(e.developer@) + json_key(false, "game"@) + json_str(
        e.game@,
    ) + json_key(false, "entitlement_id"@) + json_str(e.entitlement_id@) + json_key(
        false,
        "version"@,
    ) + json_decimal(e.version as nat) + json_key(false, "item_type"@) + json_str(e.item_type@)
        + json_key(false, "item_id"@) + json_str(e.item_id@) + json_key(false, "quantity"@)
        + json_decimal(e.quantity as nat) + json_key(false, "metadata"@) + json_str(e.metadata@)
        + json_key(false, "expiration_date"@) + json_opt_str(opt_view(e.expiration_date)) + seq![
        CLOSE_BRACE,
    ]
}

pub open spec fn achievement_json(p: Seq<u8>, a: Achievement) -> Seq<u8> {
    p + json_key(true, "developer"@) + json_str(a.developer@) + json_key(false, "game"@) + json_str(
        a.game@,
    ) + json_key(false, "achievement_id"@) + json_str(a.achievement_id@) + json_key(
        false,
        "version"@,
    ) + json_decimal(a.version as nat) + json_key(false, "achievement_name"@) + json_str(
        a.achievement_name@,
    ) + json_key(false, "criteria"@) + json_str(a.criteria@) + json_key(false, "timestamp_earned"@)
        + json_str(a.timestamp_earned@) + json_key(false, "metadata"@) + json_str(a.metadata@)
        + seq![CLOSE_BRACE]
}

pub open spec fn profile_change_json(p: Seq<u8>, c: ProfileChange) -> Seq<u8> {
    profile_json(
        p + json_key(true, "profile_hash"@) + json_str(c.profile_hash@) + json_key(
            false,
            "profile"@,
        ),
        c.profile,
    ) + seq![CLOSE_BRACE]
}

/// Externally tagged: `{"Variant":value}`.
pub open spec fn details_json(p: Seq<u8>, d: TransactionData) -> Seq<u8> {
    match d {
        TransactionData::Entitlement(e) => entitlement_json(p + json_key(true, "Entitlement"@), e)
            + seq![CLOSE_BRACE],
        TransactionData::Achievement(a) => achievement_json(p + json_key(true, "Achievement"@), a)
            + seq![CLOSE_BRACE],
        TransactionData::ProfileChange(c) => profile_change_json(
            p + json_key(true, "ProfileChange"@),
            c,
        ) + seq![CLOSE_BRACE],
    }
}

#[verifier::opaque]
pub open spec fn transaction_json(p: Seq<u8>, t: Transaction) -> Seq<u8> {
    details_json(
        p + json_key(true, "transaction_id"@) + json_str(t.transaction_id@) + json_key(
            false,
            "player_id"@,
        ) + json_str(t.player_id@) + json_key(false, "transaction_type"@) + json_str(
            t.transaction_type@,
        ) + json_key(false, "timestamp"@) + json_str(t.timestamp@) + json_key(false, "data_hash"@)
            + json_str(t.data_hash@) + json_key(false, "signature"@) + json_str(t.signature@)
            + json_key(false, "details"@),
        t.details,
    ) + seq![CLOSE_BRACE]
}

/// The items of a transaction array, after `p`.
pub open spec fn transactions_items(p: Seq<u8>, txs: Seq<Transaction>) -> Seq<u8>
    decreases txs.len(),
{
    if txs.len() == 0 {
        p
    } else if txs.len() == 1 {
        transaction_json(p, txs[0])
    } else {
        transaction_json(transactions_items(p, txs.drop_last()) + seq![COMMA], txs.last())
    }
}

/// The JSON array of transactions, after `p`.
pub open spec fn transactions_json(p: Seq<u8>, txs: Seq<Transaction>) -> Seq<u8> {
    transactions_items(p + seq![OPEN_BRACKET], txs) + seq![CLOSE_BRACKET]
}

fn write_lanes(out: &mut Vec<u8>, lanes: &Vec<u64>)
    ensures
        final(out)@ == lanes_items(old(out)@, lanes@),
{
    let mut i: usize = 0;
    while i < lanes.len()
        invariant
            i <= lanes@.len(),
            out@ == lanes_items(old(out)@, lanes@.subrange(0, i as int)),
        decreases lanes@.len() - i,
    {
        let ghost before = out@;
        if i > 0 {
            push_byte(out, COMMA);
        }
        write_json_decimal(out, lanes[i]);
        proof {
            let s = lanes@.subrange(0, i + 1);
            assert(s.drop_last() =~= lanes@.subrange(0, i as int));
            if i == 0 {
                assert(lanes@.subrange(0, i as int) =~= Seq::<u64>::empty());
                assert(out@ =~= old(out)@ + json_decimal(s[0] as nat));
            } else {
                assert(out@ =~= before + seq![COMMA] + json_decimal(s.last() as nat));
            }
        }
        i = i + 1;
    }
    assert(lanes@.subrange(0, lanes@.len() as int) =~= lanes@);
}

fn write_bitvec(out: &mut Vec<u8>, v: &BitVec)
    ensures
        final(out)@ == bitvec_json(old(out)@, *v),
{
    write_json_key(out, true, "dim");
    write_json_decimal(out, v.dim as u64);
    write_json_key(out, false, "lanes");
    push_byte(out, OPEN_BRACKET);
    write_lanes(out, &v.lanes);
    push_byte(out, CLOSE_BRACKET);
    push_byte(out, CLOSE_BRACE);
}

pub(crate) fn write_profile(out: &mut Vec<u8>, v: &PlayerProfile)
    ensures
        final(out)@ == profile_json(old(out)@, *v),
{
    write_json_key(out, true, "player_id");
    write_json_str(out, v.player_id.as_str());
    write_json_key(out, false, "name");
    write_json_str(out, v.name.as_str());
    write_json_key(out, false, "profile_vec");
    write_bitvec(out, &v.profile_vec);
    push_byte(out, CLOSE_BRACE);
}

pub(crate) fn write_entitlement(out: &mut Vec<u8>, e: &Entitlement)
    ensures
        final(out)@ == entitlement_json(old(out)@, *e),
{
    write_json_key(out, true, "developer");
    write_json_str(out, e.developer.as_str());
    write_json_key(out, false, "game");
    write_json_str(out, e.game.as_str());
    write_json_key(out, false, "entitlement_id");
    write_json_str(out, e.entitlement_id.as_str());
    write_json_key(out, false, "version");
    write_json_decimal(out, e.version as u64);
    write_json_key(out, false, "item_type");
    write_json_str(out, e.item_type.as_str());
    write_json_key(out, false, "item_id");
    write_json_str(out, e.item_id.as_str());
    write_json_key(out, false, "quantity");
    write_json_decimal(out, e.quantity as u64);
    write_json_key(out, false, "metadata");
    write_json_str(out, e.metadata.as_str());
    write_json_key(out, false, "expiration_date");
    write_json_opt_str(out, &e.expiration_date);
    write_json_close(out);
}

pub(crate) fn write_achievement(out: &mut Vec<u8>, a: &Achievement)
    ensures
        final(out)@ == achievement_json(old(out)@, *a),
{
    write_json_key(out, true, "developer");
    write_json_str(out, a.developer.as_str());
    write_json_key(out, false, "game");
    write_json_str(out, a.game.as_str());
    write_json_key(out, false, "achievement_id");
    write_json_str(out, a.achievement_id.as_str());
    write_json_key(out, false, "version");
    write_json_decimal(out, a.version as u64);
    write_json_key(out, false, "achievement_name");
    write_json_str(out, a.achievement_name.as_str());
    write_json_key(out, false, "criteria");
    write_json_str(out, a.criteria.as_str());
    write_json_key(out, false, "timestamp_earned");
    write_json_str(out, a.timestamp_earned.as_str());
    write_json_key(out, false, "metadata");
    write_json_str(out, a.metadata.as_str());
    write_json_close(out);
}

fn write_details(out: &mut Vec<u8>, d: &TransactionData)
    ensures
        final(out)@ == details_json(old(out)@, *d),
{
    match d {
        TransactionData::Entitlement(e) => {
            write_json_key(out, true, "Entitlement");
            write_entitlement(out, e);
        },
        TransactionData::Achievement(a) => {
            write_json_key(out, true, "Achievement");
            write_achievement(out, a);
        },
        TransactionData::ProfileChange(c) => {
            write_json_key(out, true, "ProfileChange");
            write_json_key(out, true, "profile_hash");
            write_json_str(out, c.profile_hash.as_str());
            write_json_key(out, false, "profile");
            write_profile(out, &c.profile);
            push_byte(out, CLOSE_BRACE);
        },
    }
    push_byte(out, CLOSE_BRACE);
}

fn write_transaction(out: &mut Vec<u8>, t: &Transaction)
    ensures
        final(out)@ == transaction_json(old(out)@, *t),
{
    write_json_key(out, true, "transaction_id");
    write_json_str(out, t.transaction_id.as_str());
    write_json_key(out, false, "player_id");
    write_json_str(out, t.player_id.as_str());
    write_json_key(out, false, "transaction_type");
    write_json_str(out, t.transaction_type.as_str());
    write_json_key(out, false, "timestamp");
    write_json_str(out, t.timestamp.as_str());
    write_json_key(out, false, "data_hash");
    write_json_str(out, t.data_hash.as_str());
    write_json_key(out, false, "signature");
    write_json_str(out, t.signature.as_str());
    write_json_key(out, false, "details");
    write_details(out, &t.details);
    push_byte(out, CLOSE_BRACE);
    proof {
        reveal(transaction_json);
    }
}

fn write_transactions(out: &mut Vec<u8>, txs: &Vec<Transaction>)
    ensures
        final(out)@ == transactions_json(old(out)@, txs@),
{
    let ghost start = old(out)@;
    push_byte(out, OPEN_BRACKET);
    let mut i: usize = 0;
    while i < txs.len()
        invariant
            i <= txs@.len(),
            out@ == transactions_items(start + seq![OPEN_BRACKET], txs@.subrange(0, i as int)),
        decreases txs@.len() - i,
    {
        let ghost before = out@;
        if i > 0 {
            push_byte(out, COMMA);
        }
        write_transaction(out, &txs[i]);
        proof {
            let s = txs@.subrange(0, i + 1);
            assert(s.drop_last() =~= txs@.subrange(0, i as int));
            if i == 0 {
                assert(txs@.subrange(0, i as int) =~= Seq::<Transaction>::empty());
            }
        }
        i = i + 1;
    }
    assert(txs@.subrange(0, txs@.len() as int) =~= txs@);
    push_byte(out, CLOSE_BRACKET);
}


/// The JSON text of a whole block, its fields in declaration order.
pub open spec fn block_json(b: Block) -> Seq<u8> {
    transactions_json(
        json_key(true, "block_hash"@) + json_str(b.block_hash@) + json_key(false, "previous_block_hash"@)
            + json_str(b.previous_block_hash@) + json_key(false, "timestamp"@) + json_str(b.timestamp@)
            + json_key(false, "app_version"@) + json_str(b.app_version@) + json_key(false, "nonce"@)
            + json_decimal(b.nonce as nat) + json_key(false, "transactions"@),
        b.transactions@,
    ) + seq![CLOSE_BRACE]
}

/// The JSON text of a whole block.
pub fn block_json_bytes(b: &Block) -> (r: Vec<u8>)
    ensures
        r@ == block_json(*b),
{
    let mut out: Vec<u8> = Vec::new();
    write_json_key(&mut out, true, "block_hash");
    write_json_str(&mut out, b.block_hash.as_str());
    write_json_key(&mut out, false, "previous_block_hash");
    write_json_str(&mut out, b.previous_block_hash.as_str());
    write_json_key(&mut out, false, "timestamp");
    write_json_str(&mut out, b.timestamp.as_str());
    write_json_key(&mut out, false, "app_version");
    write_json_str(&mut out, b.app_version.as_str());
    write_json_key(&mut out, false, "nonce");
    write_json_decimal(&mut out, b.nonce);
    write_json_key(&mut out, false, "transactions");
    write_transactions(&mut out, &b.transactions);
    push_byte(&mut out, CLOSE_BRACE);
    assert(out@ =~= block_json(*b));
    out
}

// ---------------------------------------------------------------------
// Block hashes and proof of work.
// ---------------------------------------------------------------------

/// The bytes a block hash is taken over: the previous hash, the JSON of
/// the transactions, the timestamp, the application version and the nonce
/// in decimal, one after another.
pub open spec fn block_material(
    previous_block_hash: Seq<char>,
    transactions: Seq<Transaction>,
    timestamp: Seq<char>,
    app_version: Seq<char>,
    nonce: u64,
) -> Seq<u8> {
    transactions_json(encode_utf8(previous_block_hash), transactions) + encode_utf8(timestamp)
        + encode_utf8(app_version) + json_decimal(nonce as nat)
}

/// What a block hash covers includes its transactions: blocks alike in
/// every other field whose transactions read differently as JSON are
/// hashed from different material, so changing a block's transactions
/// leaves its recorded hash standing only through a SHA-256 collision.
pub proof fn lemma_block_material_covers_transactions(
    previous_block_hash: Seq<char>,
    t1: Seq<Transaction>,
    t2: Seq<Transaction>,
    timestamp: Seq<char>,
    app_version: Seq<char>,
    nonce: u64,
)
    requires
        transactions_json(encode_utf8(previous_block_hash), t1) != transactions_json(
            encode_utf8(previous_block_hash),
            t2,
        ),
    ensures
        block_material(previous_block_hash, t1, timestamp, app_version, nonce) != block_material(
            previous_block_hash,
            t2,
            timestamp,
            app_version,
            nonce,
        ),
{
    let j1 = transactions_json(encode_utf8(previous_block_hash), t1);
    let j2 = transactions_json(encode_utf8(previous_block_hash), t2);
    let tail = encode_utf8(timestamp) + encode_utf8(app_version) + json_decimal(nonce as nat);
    let m1 = block_material(previous_block_hash, t1, timestamp, app_version, nonce);
    let m2 = block_material(previous_block_hash, t2, timestamp, app_version, nonce);
    assert(m1 =~= j1 + tail);
    assert(m2 =~= j2 + tail);
    if m1 == m2 {
        assert(j1.len() == j2.len());
        assert(j1 =~= m1.subrange(0, j1.len() as int));
        assert(j2 =~= m2.subrange(0, j2.len() as int));
    }
}

/// The hash of a block with these contents.
pub open spec fn block_hash_of(
    previous_block_hash: Seq<char>,
    transactions: Seq<Transaction>,
    timestamp: Seq<char>,
    app_version: Seq<char>,
    nonce: u64,
) -> Seq<char> {
    sha256_hex_of(block_material(previous_block_hash, transactions, timestamp, app_version, nonce))
}

/// A hash that meets the proof-of-work target: it starts with `00`.
pub open spec fn meets_work(h: Seq<char>) -> bool {
    h.len() >= 2 && h[0] == '0' && h[1] == '0'
}

/// The hash that `b` records is the hash of its contents.
pub open spec fn hash_consistent(b: Block) -> bool {
    b.block_hash@ == block_hash_of(
        b.previous_block_hash@,
        b.transactions@,
        b.timestamp@,
        b.app_version@,
        b.nonce,
    )
}

/// Each block after the first names its predecessor's hash and records
/// the hash of its own contents.
pub open spec fn chain_valid(chain: Seq<Block>) -> bool {
    forall|i: int|
        1 <= i < chain.len() ==> {
            &&& (#[trigger] chain[i]).previous_block_hash@ == chain[i - 1].block_hash@
            &&& hash_consistent(chain[i])
        }
}

/// Appends the UTF-8 bytes of `s`.
pub(crate) fn push_str_bytes(out: &mut Vec<u8>, s: &str)
    ensures
        final(out)@ == old(out)@ + encode_utf8(s@),
{
    let bytes = s.as_bytes();
    let ghost start = out@;
    let mut i: usize = 0;
    while i < bytes.len()
        invariant
            i <= bytes@.len(),
            bytes@ == encode_utf8(s@),
            out@ == start + bytes@.subrange(0, i as int),
        decreases bytes@.len() - i,
    {
        push_byte(out, bytes[i]);
        assert(out@ =~= start + bytes@.subrange(0, i + 1));
        i = i + 1;
    }
    assert(bytes@.subrange(0, bytes@.len() as int) =~= bytes@);
}

/// The hash of a block: SHA-256 in lowercase hexadecimal over the previous
/// hash, the transactions' JSON, the timestamp, the version and the nonce.
pub fn calculate_hash(
    previous_block_hash: &str,
    transactions: &Vec<Transaction>,
    timestamp: &str,
    app_version: &str,
    nonce: u64,
) -> (r: String)
    ensures
        r@ == block_hash_of(previous_block_hash@, transactions@, timestamp@, app_version@, nonce),
        r@.len() == 64,
{
    let mut material: Vec<u8> = Vec::new();
    push_str_bytes(&mut material, previous_block_hash);
    write_transactions(&mut material, transactions);
    push_str_bytes(&mut material, timestamp);
    push_str_bytes(&mut material, app_version);
    write_json_decimal(&mut material, nonce);
    assert(material@ =~= block_material(
        previous_block_hash@,
        transactions@,
        timestamp@,
        app_version@,
        nonce,
    ));
    sha256_hex(material.as_slice())
}

/// Whether `h` starts with `00`.
pub fn meets_work_target(h: &str) -> (r: bool)
    ensures
        r == meets_work(h@),
{
    let mut seen: usize = 0;
    let mut first: char = ' ';
    let mut second: char = ' ';
    for c in it: h.chars()
        invariant
            it.seq() == h@,
            seen <= 2,
            seen as int == (if it.index() < 2 { it.index() as int } else { 2 }),
            seen >= 1 ==> first == h@[0],
            seen >= 2 ==> second == h@[1],
    {
        if seen == 0 {
            first = c;
            seen = 1;
        } else if seen == 1 {
            second = c;
            seen = 2;
        }
    }
    seen == 2 && first == '0' && second == '0'
}


/// Mines a block after `previous_block` at the given time: the least nonce
/// whose hash starts with `00` (searching stops at `u64::MAX`).
pub fn create_block_at(previous_block: &Block, transactions: Vec<Transaction>, timestamp: String) -> (b: Block)
    ensures
        b.previous_block_hash@ == previous_block.block_hash@,
        b.transactions@ == transactions@,
        b.timestamp@ == timestamp@,
        b.app_version@ == APP_VERSION@,
        hash_consistent(b),
        meets_work(b.block_hash@) || b.nonce == u64::MAX,
        forall|n: u64|
            n < b.nonce ==> !meets_work(
                #[trigger] block_hash_of(
                    previous_block.block_hash@,
                    transactions@,
                    timestamp@,
                    APP_VERSION@,
                    n,
                ),
            ),
{
    let mut nonce: u64 = 0;
    let mut block_hash = calculate_hash(
        previous_block.block_hash.as_str(),
        &transactions,
        timestamp.as_str(),
        APP_VERSION,
        nonce,
    );
    while !meets_work_target(block_hash.as_str()) && nonce < u64::MAX
        invariant
            block_hash@ == block_hash_of(
                previous_block.block_hash@,
                transactions@,
                timestamp@,
                APP_VERSION@,
                nonce,
            ),
            forall|n: u64|
                n < nonce ==> !meets_work(
                    #[trigger] block_hash_of(
                        previous_block.block_hash@,
                        transactions@,
                        timestamp@,
                        APP_VERSION@,
                        n,
                    ),
                ),
        decreases u64::MAX - nonce,
    {
        nonce = nonce + 1;
        block_hash = calculate_hash(
            previous_block.block_hash.as_str(),
            &transactions,
            timestamp.as_str(),
            APP_VERSION,
            nonce,
        );
    }
    Block {
        block_hash,
        previous_block_hash: copy_string(&previous_block.block_hash),
        timestamp,
        app_version: String::from_str(APP_VERSION),
        nonce,
        transactions,
    }
}

/// Mines a block after `previous_block`, stamped with the current time.
pub fn create_block(previous_block: &Block, transactions: Vec<Transaction>) -> (b: Block)
    ensures
        b.previous_block_hash@ == previous_block.block_hash@,
        b.transactions@ == transactions@,
        timestamp_text(b.timestamp@),
        b.app_version@ == APP_VERSION@,
        hash_consistent(b),
        meets_work(b.block_hash@) || b.nonce == u64::MAX,
        forall|n: u64|
            n < b.nonce ==> !meets_work(
                #[trigger] block_hash_of(
                    previous_block.block_hash@,
                    transactions@,
                    b.timestamp@,
                    APP_VERSION@,
                    n,
                ),
            ),
{
    let timestamp = now_rfc3339();
    create_block_at(previous_block, transactions, timestamp)
}

/// The first block of every chain: hashes `"0"`, no transactions.
pub open spec fn is_genesis(b: Block) -> bool {
    &&& b.block_hash@ == seq!['0']
    &&& b.previous_block_hash@ == seq!['0']
    &&& timestamp_text(b.timestamp@)
    &&& b.app_version@ == APP_VERSION@
    &&& b.nonce == 0
    &&& b.transactions@.len() == 0
}

fn zero_text() -> (r: String)
    ensures
        r@ == seq!['0'],
{
    let mut s = String::new();
    push_char(&mut s, '0');
    s
}

/// A chain of blocks, oldest first.
#[derive(Debug)]
pub struct Blockchain {
    pub chain: Vec<Block>,
}

impl Blockchain {
    /// A chain holding the genesis block alone.
    pub fn new() -> (r: Self)
        ensures
            r.chain@.len() == 1,
            is_genesis(r.chain@[0]),
            chain_valid(r.chain@),
    {
        Blockchain { chain: vec![Blockchain::create_genesis_block()] }
    }

    fn create_genesis_block() -> (b: Block)
        ensures
            is_genesis(b),
    {
        Block {
            block_hash: zero_text(),
            previous_block_hash: zero_text(),
            timestamp: now_rfc3339(),
            app_version: String::from_str(APP_VERSION),
            nonce: 0,
            transactions: Vec::new(),
        }
    }

    /// The newest block, if any.
    pub fn get_latest_block(&self) -> (r: Option<&Block>)
        ensures
            self.chain@.len() == 0 ==> r is None,
            self.chain@.len() > 0 ==> r == Some(&self.chain@.last()),
    {
        let n = self.chain.len();
        if n == 0 {
            None
        } else {
            Some(&self.chain[n - 1])
        }
    }

    /// Mines a block holding `transactions` after the newest one and
    /// appends it; a chain without blocks is left as it is.
    pub fn add_block(&mut self, transactions: Vec<Transaction>)
        ensures
            old(self).chain@.len() == 0 ==> final(self).chain@ == old(self).chain@,
            old(self).chain@.len() > 0 ==> {
                let b = final(self).chain@.last();
                &&& final(self).chain@ == old(self).chain@.push(b)
                &&& b.previous_block_hash@ == old(self).chain@.last().block_hash@
                &&& b.transactions@ == transactions@
                &&& timestamp_text(b.timestamp@)
                &&& b.app_version@ == APP_VERSION@
                &&& hash_consistent(b)
                &&& (meets_work(b.block_hash@) || b.nonce == u64::MAX)
            },
            chain_valid(old(self).chain@) ==> chain_valid(final(self).chain@),
    {
        let n = self.chain.len();
        if n > 0 {
            let new_block = create_block(&self.chain[n - 1], transactions);
            self.chain.push(new_block);
            proof {
                let c = final(self).chain@;
                assert(c.drop_last() =~= old(self).chain@);
            }
        }
    }

    /// Whether every block links to its predecessor's hash and records the
    /// hash of its own contents.
    pub fn is_valid_chain(&self) -> (r: bool)
        ensures
            r == chain_valid(self.chain@),
    {
        let n = self.chain.len();
        let mut i: usize = 1;
        while i < n
            invariant
                n == self.chain@.len(),
                1 <= i,
                i <= n || n == 0,
                forall|j: int|
                    1 <= j < i && j < n ==> {
                        &&& (#[trigger] self.chain@[j]).previous_block_hash@ == self.chain@[j
                            - 1].block_hash@
                        &&& hash_consistent(self.chain@[j])
                    },
            decreases n - i,
        {
            let current_block = &self.chain[i];
            let previous_block = &self.chain[i - 1];
            if !str_eq(current_block.previous_block_hash.as_str(), previous_block.block_hash.as_str()) {
                return false;
            }
            let recalculated_hash = calculate_hash(
                current_block.previous_block_hash.as_str(),
                &current_block.transactions,
                current_block.timestamp.as_str(),
                current_block.app_version.as_str(),
                current_block.nonce,
            );
            if !str_eq(current_block.block_hash.as_str(), recalculated_hash.as_str()) {
                return false;
            }
            i = i + 1;
        }
        true
    }
}

} // verus!
