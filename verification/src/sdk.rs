//! What a game client checks and builds before it talks to the service:
//! claim requests from offline records, the service address, and the
//! integrity of award receipts.

use vstd::prelude::*;
use vstd::utf8::*;
use crate::digest::{sha256_hex, sha256_hex_of};
use crate::json::{json_key, push_byte, write_json_key, CLOSE_BRACE};
use crate::ledger::{
    achievement_json, entitlement_json, push_str_bytes, write_achievement, write_entitlement,
    Achievement, Entitlement,
};
use crate::offline::{
    record_integrity_ok, verify_offline_record_integrity, OfflineAchievementRecord,
    OfflineAchievementRecordView, OfflineClaimReadiness,
};
use crate::text::{copy_opt_string, copy_string, opt_view, push_char, str_eq};

verus! {

/// Why a client operation failed.
#[derive(Debug)]
pub enum SdkError {
    Http(String),
    Status { status: u16, body: String },
    Serialization(String),
    OfflineClaimNotReady(String),
    OfflineRecord(String),
}

/// The `Debug` name of a readiness.
pub open spec fn readiness_debug_name(r: OfflineClaimReadiness) -> Seq<char> {
    match r {
        OfflineClaimReadiness::Ready => "Ready"@,
        OfflineClaimReadiness::NotAllowedByIssuancePolicy => "NotAllowedByIssuancePolicy"@,
        OfflineClaimReadiness::MissingRequiredEvidence => "MissingRequiredEvidence"@,
    }
}

fn readiness_debug_text(r: OfflineClaimReadiness) -> (s: &'static str)
    ensures
        s@ == readiness_debug_name(r),
{
    match r {
        OfflineClaimReadiness::Ready => "Ready",
        OfflineClaimReadiness::NotAllowedByIssuancePolicy => "NotAllowedByIssuancePolicy",
        OfflineClaimReadiness::MissingRequiredEvidence => "MissingRequiredEvidence",
    }
}

/// A claim of an achievement as a player submits it over HTTP.
#[derive(Debug, Clone)]
pub struct SubmitAchievementClaimRequest {
    pub developer: String,
    pub game: String,
    pub achievement_id: String,
    pub version: u32,
    pub claim_id: String,
    pub session_id: String,
    pub client_sequence: u64,
    pub claimed_at: String,
    pub evidence: Option<String>,
}

impl SubmitAchievementClaimRequest {
    /// The claim request that continues an offline record online: refused
    /// where the record fails its integrity check or is not ready to claim.
    pub fn from_offline_record(record: &OfflineAchievementRecord) -> (r: Result<Self, SdkError>)
        ensures
            !record_integrity_ok(record@) ==> (r matches Err(SdkError::OfflineRecord(m)) && m@
                == "integrity verification failed"@),
            record_integrity_ok(record@) && record@.claim_readiness != OfflineClaimReadiness::Ready
                ==> (r matches Err(SdkError::OfflineClaimNotReady(m)) && m@ == readiness_debug_name(
                record@.claim_readiness,
            )),
            record_integrity_ok(record@) && record@.claim_readiness == OfflineClaimReadiness::Ready
                ==> (r matches Ok(c) && {
                &&& c.developer@ == record@.developer
                &&& c.game@ == record@.game
                &&& c.achievement_id@ == record@.achievement_id
                &&& c.version == record@.version
                &&& c.claim_id@ == record@.claim_id
                &&& c.session_id@ == record@.session_id
                &&& c.client_sequence == record@.client_sequence
                &&& c.claimed_at@ == record@.earned_at_local
                &&& opt_view(c.evidence) == record@.evidence
            }),
    {
        let integrity_ok = match verify_offline_record_integrity(record) {
            Ok(ok) => ok,
            Err(_) => false,
        };
        if !integrity_ok {
            return Err(SdkError::OfflineRecord(String::from_str("integrity verification failed")));
        }
        if record.claim_readiness != OfflineClaimReadiness::Ready {
            return Err(
                SdkError::OfflineClaimNotReady(
                    String::from_str(readiness_debug_text(record.claim_readiness)),
                ),
            );
        }
        Ok(
            SubmitAchievementClaimRequest {
                developer: copy_string(&record.developer),
                game: copy_string(&record.game),
                achievement_id: copy_string(&record.achievement_id),
                version: record.version,
                claim_id: copy_string(&record.claim_id),
                session_id: copy_string(&record.session_id),
                client_sequence: record.client_sequence,
                claimed_at: copy_string(&record.earned_at_local),
                evidence: copy_opt_string(&record.evidence),
            },
        )
    }
}

/// `s` without the `/` characters it ends with.
pub open spec fn trim_trailing_slashes(s: Seq<char>) -> Seq<char>
    decreases s.len(),
{
    if s.len() > 0 && s.last() == '/' {
        trim_trailing_slashes(s.drop_last())
    } else {
        s
    }
}

/// The service address that requests are sent to: the base URL without
/// trailing slashes.
pub fn normalize_base_url(base_url: &str) -> (r: String)
    ensures
        r@ == trim_trailing_slashes(base_url@),
{
    let mut chars: Vec<char> = Vec::new();
    for c in it: base_url.chars()
        invariant
            it.seq() == base_url@,
            chars@ == base_url@.subrange(0, it.index() as int),
    {
        chars.push(c);
        assert(chars@ =~= base_url@.subrange(0, it.index() + 1));
    }
    assert(chars@ =~= base_url@);
    let mut n = chars.len();
    while n > 0 && chars[n - 1] == '/'
        invariant
            n <= chars@.len(),
            trim_trailing_slashes(base_url@) == trim_trailing_slashes(chars@.subrange(0, n as int)),
            chars@ == base_url@,
        decreases n,
    {
        assert(chars@.subrange(0, n as int).drop_last() =~= chars@.subrange(0, n - 1));
        n = n - 1;
    }
    let mut out = String::new();
    let mut i: usize = 0;
    while i < n
        invariant
            i <= n,
            n <= chars@.len(),
            out@ == chars@.subrange(0, i as int),
        decreases n - i,
    {
        push_char(&mut out, chars[i]);
        i = i + 1;
        assert(out@ =~= chars@.subrange(0, i as int));
    }
    out
}

/// What an award receipt says was awarded; a profile change is carried as
/// the JSON text the service sent for it.
#[derive(Debug, Clone)]
pub enum ReceiptDetails {
    Entitlement(Entitlement),
    Achievement(Achievement),
    ProfileChange(String),
}

/// A receipt for an award as the service returns it.
#[derive(Debug, Clone)]
pub struct AwardReceipt {
    pub player_id: String,
    pub transaction_id: String,
    pub transaction_type: String,
    pub timestamp: String,
    pub data_hash: String,
    pub block_hash: String,
    pub details: ReceiptDetails,
}

/// The JSON text of receipt details, externally tagged.
pub open spec fn receipt_details_json(d: ReceiptDetails) -> Seq<u8> {
    match d {
        ReceiptDetails::Entitlement(e) => entitlement_json(json_key(true, "Entitlement"@), e)
            + seq![CLOSE_BRACE],
        ReceiptDetails::Achievement(a) => achievement_json(json_key(true, "Achievement"@), a)
            + seq![CLOSE_BRACE],
        ReceiptDetails::ProfileChange(v) => json_key(true, "ProfileChange"@) + encode_utf8(v@)
            + seq![CLOSE_BRACE],
    }
}

/// Whether a receipt's data hash is the SHA-256 of its details' JSON and
/// it names a block.
pub fn verify_receipt_integrity(receipt: &AwardReceipt) -> (r: Result<bool, SdkError>)
    ensures
        r matches Ok(ok) && ok == (receipt.data_hash@ == sha256_hex_of(
            receipt_details_json(receipt.details),
        ) && receipt.block_hash@.len() > 0),
{
    let mut payload: Vec<u8> = Vec::new();
    match &receipt.details {
        ReceiptDetails::Entitlement(e) => {
            write_json_key(&mut payload, true, "Entitlement");
            write_entitlement(&mut payload, e);
        },
        ReceiptDetails::Achievement(a) => {
            write_json_key(&mut payload, true, "Achievement");
            write_achievement(&mut payload, a);
        },
        ReceiptDetails::ProfileChange(v) => {
            write_json_key(&mut payload, true, "ProfileChange");
            push_str_bytes(&mut payload, v.as_str());
        },
    }
    push_byte(&mut payload, CLOSE_BRACE);
    assert(payload@ =~= receipt_details_json(receipt.details));
    let expected = sha256_hex(payload.as_slice());
    Ok(str_eq(expected.as_str(), receipt.data_hash.as_str()) && !receipt.block_hash.as_str().is_empty())
}

/// How a lookup that the server answered with a failure status is read.
#[derive(Debug, Clone, Copy, PartialEq, Eq, Structural)]
pub enum LookupFailure {
    /// The server has no such item: the lookup gives nothing.
    Absent,
    /// Any other failure status: an error carrying the status.
    Failed(u16),
}

/// A lookup answered with `status`: absent for 404, an error otherwise.
pub fn lookup_failure(status: u16) -> (r: LookupFailure)
    ensures
        status == 404 ==> r == LookupFailure::Absent,
        status != 404 ==> r == LookupFailure::Failed(status),
{
    if status == 404 {
        LookupFailure::Absent
    } else {
        LookupFailure::Failed(status)
    }
}

} // verus!
