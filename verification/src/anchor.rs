//! Anchoring ledger blocks on a qcoin node: the anchor transaction a block
//! becomes, the outbox of anchors awaiting acceptance, and the node target
//! that a URL names. Sending to the node is the caller's.

use vstd::prelude::*;
use crate::text::chars_of;
use crate::ledger::{block_json, block_json_bytes, Block};
use crate::node::{trim, trim_piece};
use crate::text::{decimal_text, push_char, push_decimal};

verus! {

/// The BLAKE3 hash of `data`.
pub uninterp spec fn blake3_of(data: Seq<u8>) -> Seq<u8>;

/// `blake3::hash`: the 32-byte BLAKE3 hash, a function of the bytes alone.
#[verifier::external_body]
fn blake3_hash(data: &[u8]) -> (r: [u8; 32])
    ensures
        r@ == blake3_of(data@),
{
    *blake3::hash(data).as_bytes()
}

/// The last `k` bytes of `n`, most significant first.
pub open spec fn be_bytes(n: nat, k: nat) -> Seq<u8>
    decreases k,
{
    if k == 0 {
        Seq::empty()
    } else {
        be_bytes(n / 256, (k - 1) as nat).push((n % 256) as u8)
    }
}

fn be_bytes_of(n: u128, k: usize) -> (r: Vec<u8>)
    ensures
        r@ == be_bytes(n as nat, k as nat),
    decreases k,
{
    if k == 0 {
        Vec::new()
    } else {
        let mut v = be_bytes_of(n / 256, k - 1);
        v.push((n % 256) as u8);
        v
    }
}

/// What anchoring a block on qcoin records: one transfer output, with no
/// inputs and no assets, owned by the player's script hash and carrying the
/// block's metadata hash.
#[derive(Debug, Clone, Copy, PartialEq, Eq)]
pub struct AnchorTransaction {
    pub owner_script_hash: [u8; 32],
    pub metadata_hash: [u8; 32],
}

/// The owner of a player's anchors: BLAKE3 of the player's UUID bytes.
pub fn player_owner_hash(player_id: u128) -> (r: [u8; 32])
    ensures
        r@ == blake3_of(be_bytes(player_id as nat, 16)),
{
    let bytes = be_bytes_of(player_id, 16);
    blake3_hash(bytes.as_slice())
}

/// The metadata hash of a block: BLAKE3 of its JSON text.
pub fn block_metadata_hash(block: &Block) -> (r: [u8; 32])
    ensures
        r@ == blake3_of(block_json(*block)),
{
    let json = block_json_bytes(block);
    blake3_hash(json.as_slice())
}

/// The anchor transaction of a player's block.
pub fn make_anchor_tx(player_id: u128, block: &Block) -> (r: AnchorTransaction)
    ensures
        r.owner_script_hash@ == blake3_of(be_bytes(player_id as nat, 16)),
        r.metadata_hash@ == blake3_of(block_json(*block)),
{
    AnchorTransaction {
        owner_script_hash: player_owner_hash(player_id),
        metadata_hash: block_metadata_hash(block),
    }
}

/// An anchor waiting for the node to accept it.
#[derive(Debug, Clone)]
pub struct AnchorOutboxEntry {
    pub player_id: u128,
    pub block: Block,
    pub transaction: AnchorTransaction,
    pub attempts: u32,
    pub last_error: Option<String>,
}

/// The outbox entry for a block just appended: its anchor, not yet tried.
pub fn enqueue_anchor(player_id: u128, block: Block) -> (r: AnchorOutboxEntry)
    ensures
        r.player_id == player_id,
        r.block == block,
        r.transaction.owner_script_hash@ == blake3_of(be_bytes(player_id as nat, 16)),
        r.transaction.metadata_hash@ == blake3_of(block_json(block)),
        r.attempts == 0,
        r.last_error is None,
{
    let transaction = make_anchor_tx(player_id, &block);
    AnchorOutboxEntry { player_id, block, transaction, attempts: 0, last_error: None }
}

/// What submitting an anchor to the node came to.
pub enum SubmissionOutcome {
    /// The node accepted the transaction.
    Accepted,
    /// The node answered and refused it, with its message.
    Refused(String),
    /// No answer came: the error of the attempt.
    Failed(String),
}

/// What becomes of an outbox entry after one submission: gone once
/// accepted, else kept with one more attempt and the reason it failed.
pub fn settle_anchor(entry: AnchorOutboxEntry, outcome: SubmissionOutcome) -> (r: Option<AnchorOutboxEntry>)
    requires
        outcome is Accepted || entry.attempts < u32::MAX,
    ensures
        match outcome {
            SubmissionOutcome::Accepted => r is None,
            SubmissionOutcome::Refused(m) => r matches Some(e) && e.player_id == entry.player_id
                && e.block == entry.block && e.transaction == entry.transaction && e.attempts
                == entry.attempts + 1 && e.last_error == Some(m),
            SubmissionOutcome::Failed(m) => r matches Some(e) && e.player_id == entry.player_id
                && e.block == entry.block && e.transaction == entry.transaction && e.attempts
                == entry.attempts + 1 && e.last_error == Some(m),
        },
{
    match outcome {
        SubmissionOutcome::Accepted => None,
        SubmissionOutcome::Refused(message) => Some(
            AnchorOutboxEntry {
                player_id: entry.player_id,
                block: entry.block,
                transaction: entry.transaction,
                attempts: entry.attempts + 1,
                last_error: Some(message),
            },
        ),
        SubmissionOutcome::Failed(message) => Some(
            AnchorOutboxEntry {
                player_id: entry.player_id,
                block: entry.block,
                transaction: entry.transaction,
                attempts: entry.attempts + 1,
                last_error: Some(message),
            },
        ),
    }
}

/// The port of a node whose URL names none.
pub const DEFAULT_QCOIN_NODE_PORT: u16 = 9700;

/// Whether `s` has `://` at `i`.
pub open spec fn scheme_mark_at(s: Seq<char>, i: int) -> bool {
    0 <= i && i + 3 <= s.len() && s[i] == ':' && s[i + 1] == '/' && s[i + 2] == '/'
}

/// What follows the first `://` of `s`, if it has one.
pub open spec fn after_mark(s: Seq<char>) -> Option<Seq<char>>
    decreases s.len(),
{
    if s.len() < 3 {
        None
    } else if scheme_mark_at(s, 0) {
        Some(s.skip(3))
    } else {
        after_mark(s.drop_first())
    }
}

/// `s` after its first `://`, or all of `s` where it has none.
pub open spec fn after_scheme(s: Seq<char>) -> Seq<char> {
    match after_mark(s) {
        Some(rest) => rest,
        None => s,
    }
}

/// `s` up to its first `/`.
pub open spec fn before_slash(s: Seq<char>) -> Seq<char>
    decreases s.len(),
{
    if s.len() == 0 || s[0] == '/' {
        Seq::empty()
    } else {
        seq![s[0]] + before_slash(s.drop_first())
    }
}

/// The authority of a node URL: after the scheme, up to the first `/`,
/// without whitespace at either end.
pub open spec fn authority_of(url: Seq<char>) -> Seq<char> {
    trim(before_slash(after_scheme(url)))
}

/// The host and port a node URL names: its authority, with the default
/// port added where it has no `:` and is no bracketed address; `None`
/// where the authority is empty.
pub open spec fn target_of_url(url: Seq<char>) -> Option<Seq<char>> {
    let authority = authority_of(url);
    if authority.len() == 0 {
        None
    } else if authority.contains(':') || authority[0] == '[' {
        Some(authority)
    } else {
        Some(authority + seq![':'] + decimal_text(DEFAULT_QCOIN_NODE_PORT as nat))
    }
}

proof fn lemma_after_mark(s: Seq<char>, i: int)
    requires
        0 <= i,
        forall|j: int| 0 <= j < i ==> !scheme_mark_at(s, j),
        scheme_mark_at(s, i) || i + 3 > s.len(),
    ensures
        scheme_mark_at(s, i) ==> after_mark(s) == Some(s.skip(i + 3)),
        !scheme_mark_at(s, i) ==> after_mark(s) is None,
    decreases i,
{
    if s.len() < 3 {
    } else if i == 0 {
    } else {
        assert(!scheme_mark_at(s, 0));
        let t = s.drop_first();
        assert forall|j: int| 0 <= j < i - 1 implies !scheme_mark_at(t, j) by {
            assert(!scheme_mark_at(s, j + 1));
        }
        lemma_after_mark(t, i - 1);
        if scheme_mark_at(s, i) {
            assert(t.skip(i + 2) =~= s.skip(i + 3));
        }
    }
}

proof fn lemma_before_slash(s: Seq<char>, k: int)
    requires
        0 <= k <= s.len(),
        forall|j: int| 0 <= j < k ==> s[j] != '/',
        k == s.len() || s[k] == '/',
    ensures
        before_slash(s) == s.take(k),
    decreases k,
{
    if k == 0 {
        assert(s.take(0) =~= Seq::<char>::empty());
    } else {
        let t = s.drop_first();
        lemma_before_slash(t, k - 1);
        assert(seq![s[0]] + t.take(k - 1) =~= s.take(k));
    }
}

/// Where `s` has its first `://`, one past its end; 0 where it has none.
fn scheme_end(chars: &Vec<char>) -> (start: usize)
    ensures
        start <= chars@.len(),
        after_scheme(chars@) == chars@.skip(start as int),
{
    let n = chars.len();
    let mut i: usize = 0;
    while i < n && n - i >= 3
        invariant
            n == chars@.len(),
            i <= n,
            forall|j: int| 0 <= j < i ==> !scheme_mark_at(chars@, j),
        decreases n - i,
    {
        if chars[i] == ':' && chars[i + 1] == '/' && chars[i + 2] == '/' {
            proof {
                lemma_after_mark(chars@, i as int);
            }
            return i + 3;
        }
        i = i + 1;
    }
    proof {
        lemma_after_mark(chars@, i as int);
        assert(chars@.skip(0) =~= chars@);
    }
    0
}

/// The host and port that a node URL names (`host:port`, the port
/// defaulting to `DEFAULT_QCOIN_NODE_PORT`), or why it names none.
pub fn qcoin_target_spec(url: &str) -> (r: Result<String, String>)
    ensures
        match target_of_url(url@) {
            Some(t) => r matches Ok(v) && v@ == t,
            None => r matches Err(m) && m@ == "missing authority in qcoin URL "@ + url@,
        },
{
    let chars = chars_of(url);
    let n = chars.len();
    let start = scheme_end(&chars);
    let ghost rest = chars@.skip(start as int);
    let mut piece = String::new();
    let mut end = start;
    while end < n && chars[end] != '/'
        invariant
            start <= end <= n,
            n == chars@.len(),
            rest == chars@.skip(start as int),
            piece@ == rest.take(end - start),
            forall|j: int| 0 <= j < end - start ==> rest[j] != '/',
        decreases n - end,
    {
        push_char(&mut piece, chars[end]);
        end = end + 1;
        assert(piece@ =~= rest.take(end - start));
    }
    proof {
        lemma_before_slash(rest, end - start);
    }
    let authority = trim_piece(&piece);
    assert(authority@ == authority_of(url@));
    if authority.as_str().is_empty() {
        let mut message = String::from_str("missing authority in qcoin URL ");
        message.append(url);
        return Err(message);
    }
    let letters = chars_of(authority.as_str());
    let mut has_colon = false;
    let mut k: usize = 0;
    while k < letters.len()
        invariant
            letters@ == authority@,
            k <= letters@.len(),
            has_colon <==> exists|w: int| 0 <= w < k && letters@[w] == ':',
        decreases letters@.len() - k,
    {
        if letters[k] == ':' {
            has_colon = true;
        }
        k = k + 1;
    }
    if has_colon || letters[0] == '[' {
        Ok(authority)
    } else {
        let mut target = authority;
        target.append(":");
        push_decimal(&mut target, DEFAULT_QCOIN_NODE_PORT as u64);
        proof {
            reveal_strlit(":");
            assert(!authority_of(url@).contains(':'));
        }
        Ok(target)
    }
}

} // verus!
