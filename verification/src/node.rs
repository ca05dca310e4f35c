//! Decisions of an EAB node on the discovery plane: reachability cookies,
//! trusted-authority pins and the choice of an authority among discovered
//! candidates. Socket addresses appear here by their text form.

use vstd::prelude::*;
use vstd::utf8::*;
use crate::text::{copy_string, is_white_space, is_white_space_exec, push_char};
use crate::wire::{
    fault_result, response_fault, DiscoveryResponse, DiscoveryResponseView,
    AUTHORITY_FINGERPRINT_LEN, DISCOVERY_TOKEN_LEN, DISCOVERY_WIRE_VERSION, validate_response,
};
use crate::codec::array32;

verus! {

/// Cookies are issued per time bucket of this many seconds.
pub const DISCOVERY_COOKIE_BUCKET_SECONDS: u64 = 60;
/// How long a discovery response stays valid.
pub const DISCOVERY_RESPONSE_TTL_SECONDS: u64 = 120;
/// The most authorities a node keeps from discovery.
pub const MAX_DISCOVERED_AUTHORITIES: usize = 128;

/// Whether two inclusive version ranges share a version.
pub fn version_ranges_overlap(left_min: u16, left_max: u16, right_min: u16, right_max: u16) -> (r:
    bool)
    ensures
        r == (left_min <= right_max && right_min <= left_max),
{
    left_min <= right_max && right_min <= left_max
}

proof fn lemma_or_xor_zero(d: u8, a: u8, b: u8)
    ensures
        ((d | (a ^ b)) == 0) == (d == 0 && a == b),
{
    assert(((d | (a ^ b)) == 0) == (d == 0 && a == b)) by (bit_vector);
}

/// Compares two arrays without stopping at the first difference.
pub fn constant_time_equal<const N: usize>(left: &[u8; N], right: &[u8; N]) -> (r: bool)
    ensures
        r == (left@ == right@),
{
    let mut difference: u8 = 0;
    let mut i: usize = 0;
    while i < N
        invariant
            i <= N,
            left@.len() == N,
            right@.len() == N,
            (difference == 0) == (forall|j: int| 0 <= j < i ==> left@[j] == right@[j]),
        decreases N - i,
    {
        proof {
            lemma_or_xor_zero(difference, left@[i as int], right@[i as int]);
        }
        difference = difference | (left[i] ^ right[i]);
        i = i + 1;
    }
    if difference == 0 {
        assert(left@ =~= right@);
    }
    difference == 0
}

// ---------------------------------------------------------------------
// Reachability cookies
// ---------------------------------------------------------------------

/// The BLAKE3 keyed hash of `input` under `key`.
pub uninterp spec fn blake3_keyed_of(key: Seq<u8>, input: Seq<u8>) -> Seq<u8>;

/// `blake3::keyed_hash`: the 32-byte keyed BLAKE3 hash, a function of the
/// key and the input alone.
#[verifier::external_body]
fn blake3_keyed_hash(key: &[u8; 32], input: &[u8]) -> (r: [u8; 32])
    ensures
        r@ == blake3_keyed_of(key@, input@),
{
    *blake3::keyed_hash(key, input).as_bytes()
}

/// The domain string that opens every cookie input, `eab-discovery-cookie`
/// and a zero byte.
pub const COOKIE_DOMAIN: [u8; 21] = [
    0x65, 0x61, 0x62, 0x2d, 0x64, 0x69, 0x73, 0x63, 0x6f, 0x76, 0x65, 0x72, 0x79, 0x2d, 0x63, 0x6f,
    0x6f, 0x6b, 0x69, 0x65, 0x00,
];

/// `v` in eight bytes, most significant first.
pub open spec fn u64_be(v: u64) -> Seq<u8> {
    seq![
        (v / 0x100_0000_0000_0000) as u8,
        ((v / 0x1_0000_0000_0000) % 256) as u8,
        ((v / 0x100_0000_0000) % 256) as u8,
        ((v / 0x1_0000_0000) % 256) as u8,
        ((v / 0x100_0000) % 256) as u8,
        ((v / 0x1_0000) % 256) as u8,
        ((v / 0x100) % 256) as u8,
        (v % 256) as u8,
    ]
}

/// The bytes a cookie is the keyed hash of.
pub open spec fn cookie_input(
    source: Seq<char>,
    request_id: Seq<u8>,
    client_nonce: Seq<u8>,
    bucket: u64,
) -> Seq<u8> {
    COOKIE_DOMAIN@ + encode_utf8(source) + request_id + client_nonce + u64_be(bucket)
}

/// The cookie for a source, request and nonce in time bucket `bucket`.
pub open spec fn cookie_for(
    key: Seq<u8>,
    source: Seq<char>,
    request_id: Seq<u8>,
    client_nonce: Seq<u8>,
    bucket: u64,
) -> Seq<u8> {
    blake3_keyed_of(key, cookie_input(source, request_id, client_nonce, bucket)).subrange(0, 16)
}

/// Issues opaque, source-bound cookies that stay valid for the current and
/// the previous time bucket.
pub struct DiscoveryCookieIssuer {
    pub key: [u8; 32],
}

fn push_all(out: &mut Vec<u8>, bytes: &[u8])
    ensures
        final(out)@ == old(out)@ + bytes@,
{
    let mut i: usize = 0;
    while i < bytes.len()
        invariant
            i <= bytes@.len(),
            out@ == old(out)@ + bytes@.subrange(0, i as int),
        decreases bytes@.len() - i,
    {
        out.push(bytes[i]);
        i = i + 1;
        assert(out@ =~= old(out)@ + bytes@.subrange(0, i as int));
    }
    assert(bytes@.subrange(0, bytes@.len() as int) =~= bytes@);
}

fn u64_to_be(v: u64) -> (r: [u8; 8])
    ensures
        r@ == u64_be(v),
{
    let r = [
        (v / 0x100_0000_0000_0000) as u8,
        ((v / 0x1_0000_0000_0000) % 256) as u8,
        ((v / 0x100_0000_0000) % 256) as u8,
        ((v / 0x1_0000_0000) % 256) as u8,
        ((v / 0x100_0000) % 256) as u8,
        ((v / 0x1_0000) % 256) as u8,
        ((v / 0x100) % 256) as u8,
        (v % 256) as u8,
    ];
    assert(r@ =~= u64_be(v));
    r
}

impl DiscoveryCookieIssuer {
    /// The cookie for `source`, `request_id` and `client_nonce` in time
    /// bucket `bucket`.
    pub fn issue_for_bucket(
        &self,
        source: &str,
        request_id: &[u8; 16],
        client_nonce: &[u8; 16],
        bucket: u64,
    ) -> (r: [u8; 16])
        ensures
            r@ == cookie_for(self.key@, source@, request_id@, client_nonce@, bucket),
    {
        let mut input: Vec<u8> = Vec::new();
        push_all(&mut input, COOKIE_DOMAIN.as_slice());
        push_all(&mut input, source.as_bytes());
        push_all(&mut input, request_id.as_slice());
        push_all(&mut input, client_nonce.as_slice());
        let be = u64_to_be(bucket);
        push_all(&mut input, be.as_slice());
        assert(input@ =~= cookie_input(source@, request_id@, client_nonce@, bucket));
        let digest = blake3_keyed_hash(&self.key, input.as_slice());
        let mut cookie = [0u8; 16];
        let mut i: usize = 0;
        while i < 16
            invariant
                i <= 16,
                digest@.len() == 32,
                forall|j: int| 0 <= j < i ==> cookie@[j] == digest@[j],
            decreases 16 - i,
        {
            cookie[i] = digest[i];
            i = i + 1;
        }
        assert(cookie@ =~= digest@.subrange(0, 16));
        cookie
    }

    /// The cookie for the bucket that `unix_seconds` falls in.
    pub fn issue(&self, source: &str, request_id: &[u8; 16], client_nonce: &[u8; 16], unix_seconds: u64) -> (r: [u8; 16])
        ensures
            r@ == cookie_for(
                self.key@,
                source@,
                request_id@,
                client_nonce@,
                unix_seconds / DISCOVERY_COOKIE_BUCKET_SECONDS,
            ),
    {
        self.issue_for_bucket(
            source,
            request_id,
            client_nonce,
            unix_seconds / DISCOVERY_COOKIE_BUCKET_SECONDS,
        )
    }

    /// Whether `cookie` is the cookie of the current or the previous
    /// bucket.
    pub fn validate(
        &self,
        source: &str,
        request_id: &[u8; 16],
        client_nonce: &[u8; 16],
        cookie: &[u8; 16],
        unix_seconds: u64,
    ) -> (r: bool)
        ensures
            r == (cookie@ == cookie_for(
                self.key@,
                source@,
                request_id@,
                client_nonce@,
                unix_seconds / DISCOVERY_COOKIE_BUCKET_SECONDS,
            ) || cookie@ == cookie_for(
                self.key@,
                source@,
                request_id@,
                client_nonce@,
                if unix_seconds / DISCOVERY_COOKIE_BUCKET_SECONDS == 0 {
                    0
                } else {
                    (unix_seconds / DISCOVERY_COOKIE_BUCKET_SECONDS - 1) as u64
                },
            )),
    {
        let bucket = unix_seconds / DISCOVERY_COOKIE_BUCKET_SECONDS;
        let current = self.issue_for_bucket(source, request_id, client_nonce, bucket);
        if constant_time_equal(&current, cookie) {
            return true;
        }
        let previous = self.issue_for_bucket(
            source,
            request_id,
            client_nonce,
            bucket.saturating_sub(1),
        );
        constant_time_equal(&previous, cookie)
    }
}

/// A cookie issued at `issued_at` is accepted at any time in the same or
/// the next bucket.
pub proof fn lemma_cookie_accepted_while_recent(
    key: Seq<u8>,
    source: Seq<char>,
    request_id: Seq<u8>,
    client_nonce: Seq<u8>,
    issued_at: u64,
    checked_at: u64,
)
    requires
        checked_at / DISCOVERY_COOKIE_BUCKET_SECONDS == issued_at / DISCOVERY_COOKIE_BUCKET_SECONDS
            || checked_at / DISCOVERY_COOKIE_BUCKET_SECONDS == issued_at
            / DISCOVERY_COOKIE_BUCKET_SECONDS + 1,
    ensures
        ({
            let cookie = cookie_for(
                key,
                source,
                request_id,
                client_nonce,
                issued_at / DISCOVERY_COOKIE_BUCKET_SECONDS,
            );
            let bucket = checked_at / DISCOVERY_COOKIE_BUCKET_SECONDS;
            cookie == cookie_for(key, source, request_id, client_nonce, bucket) || cookie
                == cookie_for(
                key,
                source,
                request_id,
                client_nonce,
                if bucket == 0 {
                    0
                } else {
                    (bucket - 1) as u64
                },
            )
        }),
{
}

// ---------------------------------------------------------------------
// Trusted-authority pins
// ---------------------------------------------------------------------

/// A separator of the pin list: a comma or ASCII whitespace.
pub open spec fn pin_separator(c: char) -> bool {
    c == ',' || c == ' ' || c == '\t' || c == '\n' || c == '\x0c' || c == '\r'
}

/// The pieces between separators, empty ones included.
pub open spec fn split_pieces(s: Seq<char>) -> Seq<Seq<char>>
    decreases s.len(),
{
    if s.len() == 0 {
        seq![Seq::empty()]
    } else {
        let p = split_pieces(s.drop_last());
        if pin_separator(s.last()) {
            p.push(Seq::empty())
        } else {
            p.update(p.len() - 1, p.last().push(s.last()))
        }
    }
}

/// `s` without leading whitespace.
pub open spec fn trim_start(s: Seq<char>) -> Seq<char>
    decreases s.len(),
{
    if s.len() > 0 && is_white_space(s[0]) {
        trim_start(s.drop_first())
    } else {
        s
    }
}

/// `s` without trailing whitespace.
pub open spec fn trim_end(s: Seq<char>) -> Seq<char>
    decreases s.len(),
{
    if s.len() > 0 && is_white_space(s.last()) {
        trim_end(s.drop_last())
    } else {
        s
    }
}

/// `s` without whitespace at either end.
pub open spec fn trim(s: Seq<char>) -> Seq<char> {
    trim_end(trim_start(s))
}

/// The trimmed, non-empty pieces, in order.
pub open spec fn pin_tokens_of(pieces: Seq<Seq<char>>) -> Seq<Seq<char>>
    decreases pieces.len(),
{
    if pieces.len() == 0 {
        Seq::empty()
    } else if trim(pieces.last()).len() == 0 {
        pin_tokens_of(pieces.drop_last())
    } else {
        pin_tokens_of(pieces.drop_last()).push(trim(pieces.last()))
    }
}

/// The value of a hexadecimal digit, upper or lower case.
pub open spec fn hex_value(b: u8) -> Option<u8> {
    if 0x30 <= b <= 0x39 {
        Some((b - 0x30) as u8)
    } else if 0x61 <= b <= 0x66 {
        Some((b - 0x61 + 10) as u8)
    } else if 0x41 <= b <= 0x46 {
        Some((b - 0x41 + 10) as u8)
    } else {
        None
    }
}

/// The bytes that hexadecimal text stands for, if it is valid: an even
/// number of hexadecimal digits, each pair high nibble first.
pub open spec fn hex_decode_of(text: Seq<u8>) -> Option<Seq<u8>>
    decreases text.len(),
{
    if text.len() % 2 != 0 {
        None
    } else if text.len() == 0 {
        Some(Seq::empty())
    } else {
        let n = text.len();
        match (hex_decode_of(text.subrange(0, n - 2)), hex_value(text[n - 2]), hex_value(
            text[n - 1],
        )) {
            (Some(front), Some(hi), Some(lo)) => Some(front.push((hi * 16 + lo) as u8)),
            _ => None,
        }
    }
}

/// `hex::decode`: the bytes of valid hexadecimal text, or the text of the
/// `FromHexError` it raises (whose wording is not stated).
#[verifier::external_body]
fn hex_decode(text: &str) -> (r: Result<Vec<u8>, String>)
    ensures
        match hex_decode_of(encode_utf8(text@)) {
            Some(bytes) => r is Ok && r->Ok_0@ == bytes,
            None => r is Err,
        },
{
    hex::decode(text).map_err(|error| error.to_string())
}

/// Why a pin list is refused.
pub enum PinFault {
    /// The token is not hexadecimal text.
    InvalidHex(Seq<char>),
    /// The token does not encode exactly 32 bytes.
    WrongLength,
    /// The token encodes 32 zero bytes.
    Zero,
}

/// The pins of a token list, without repeats, first occurrence first, or
/// what is wrong with the first bad token.
pub open spec fn pins_of(tokens: Seq<Seq<char>>) -> Result<Seq<Seq<u8>>, PinFault>
    decreases tokens.len(),
{
    if tokens.len() == 0 {
        Ok(Seq::empty())
    } else {
        match pins_of(tokens.drop_last()) {
            Err(f) => Err(f),
            Ok(pins) => match hex_decode_of(encode_utf8(tokens.last())) {
                None => Err(PinFault::InvalidHex(tokens.last())),
                Some(bytes) => if bytes.len() != AUTHORITY_FINGERPRINT_LEN {
                    Err(PinFault::WrongLength)
                } else if !crate::wire::nonzero(bytes) {
                    Err(PinFault::Zero)
                } else if pins.contains(bytes) {
                    Ok(pins)
                } else {
                    Ok(pins.push(bytes))
                },
            },
        }
    }
}

/// What parsing the pin list `spec` gives: its pins, or why it is refused.
pub open spec fn pin_list_of(spec: Seq<char>) -> Result<Seq<Seq<u8>>, PinFault> {
    pins_of(pin_tokens_of(split_pieces(spec)))
}


/// The texts of a list of strings.
pub open spec fn strings_view(v: Seq<String>) -> Seq<Seq<char>> {
    v.map_values(|s: String| s@)
}

fn is_pin_separator(c: char) -> (r: bool)
    ensures
        r == pin_separator(c),
{
    c == ',' || c == ' ' || c == '\t' || c == '\n' || c == '\x0c' || c == '\r'
}

/// The pieces of `spec` between separators.
fn split_pin_pieces(spec: &str) -> (r: Vec<String>)
    ensures
        strings_view(r@) == split_pieces(spec@),
{
    broadcast use vstd::string::axiom_spec_iter;

    let mut pieces: Vec<String> = Vec::new();
    pieces.push(String::new());
    assert(strings_view(pieces@) =~= split_pieces(spec@.subrange(0, 0)));
    for c in it: spec.chars()
        invariant
            it.seq() == spec@,
            pieces@.len() >= 1,
            strings_view(pieces@) == split_pieces(spec@.subrange(0, it.index() as int)),
    {
        let ghost i = it.index() as int;
        assert(c == spec@[i]);
        assert(spec@.subrange(0, i + 1).drop_last() =~= spec@.subrange(0, i));
        let ghost before = strings_view(pieces@);
        if is_pin_separator(c) {
            pieces.push(String::new());
            assert(strings_view(pieces@) =~= before.push(Seq::empty()));
        } else {
            let n = pieces.len();
            let mut last = pieces.pop().unwrap();
            push_char(&mut last, c);
            pieces.push(last);
            assert(strings_view(pieces@) =~= before.update(before.len() - 1, before.last().push(c)));
        }
    }
    assert(spec@.subrange(0, spec@.len() as int) =~= spec@);
    pieces
}

pub(crate) proof fn lemma_trim_start(s: Seq<char>, k: int)
    requires
        0 <= k <= s.len(),
        forall|i: int| 0 <= i < k ==> is_white_space(#[trigger] s[i]),
        k == s.len() || !is_white_space(s[k]),
    ensures
        trim_start(s) == s.subrange(k, s.len() as int),
    decreases k,
{
    if k == 0 {
        assert(s.subrange(0, s.len() as int) =~= s);
    } else {
        assert forall|i: int| 0 <= i < k - 1 implies is_white_space(#[trigger] s.drop_first()[i]) by {
            assert(s.drop_first()[i] == s[i + 1]);
        }
        lemma_trim_start(s.drop_first(), k - 1);
        assert(s.drop_first().subrange(k - 1, s.len() - 1) =~= s.subrange(k, s.len() as int));
    }
}

pub(crate) proof fn lemma_trim_end(s: Seq<char>, m: int)
    requires
        0 <= m <= s.len(),
        forall|i: int| m <= i < s.len() ==> is_white_space(#[trigger] s[i]),
        m == 0 || !is_white_space(s[m - 1]),
    ensures
        trim_end(s) == s.subrange(0, m),
    decreases s.len() - m,
{
    if m == s.len() {
        assert(s.subrange(0, m) =~= s);
    } else {
        assert forall|i: int| m <= i < s.len() - 1 implies is_white_space(#[trigger] s.drop_last()[i]) by {
            assert(s.drop_last()[i] == s[i]);
        }
        lemma_trim_end(s.drop_last(), m);
        assert(s.drop_last().subrange(0, m) =~= s.subrange(0, m));
    }
}

/// `piece` without whitespace at either end.
pub(crate) fn trim_piece(piece: &String) -> (r: String)
    ensures
        r@ == trim(piece@),
{
    broadcast use vstd::string::axiom_spec_iter;

    let mut chars: Vec<char> = Vec::new();
    for c in it: piece.as_str().chars()
        invariant
            it.seq() == piece@,
            chars@ == piece@.subrange(0, it.index() as int),
    {
        assert(c == piece@[it.index() as int]);
        chars.push(c);
        assert(chars@ =~= piece@.subrange(0, it.index() + 1));
    }
    assert(chars@ =~= piece@);
    let n = chars.len();
    let mut start: usize = 0;
    while start < n && is_white_space_exec(chars[start])
        invariant
            start <= n,
            n == chars@.len(),
            forall|i: int| 0 <= i < start ==> is_white_space(#[trigger] chars@[i]),
        decreases n - start,
    {
        start = start + 1;
    }
    let mut end: usize = n;
    while end > start && is_white_space_exec(chars[end - 1])
        invariant
            start <= end <= n,
            n == chars@.len(),
            forall|i: int| end <= i < n ==> is_white_space(#[trigger] chars@[i]),
        decreases end - start,
    {
        end = end - 1;
    }
    let mut out = String::new();
    let mut i: usize = start;
    while i < end
        invariant
            start <= i <= end <= n,
            n == chars@.len(),
            out@ == chars@.subrange(start as int, i as int),
        decreases end - i,
    {
        push_char(&mut out, chars[i]);
        i = i + 1;
        assert(out@ =~= chars@.subrange(start as int, i as int));
    }
    proof {
        let s = piece@;
        lemma_trim_start(s, start as int);
        let t = s.subrange(start as int, n as int);
        assert forall|j: int| end - start <= j < t.len() implies is_white_space(#[trigger] t[j]) by {
            assert(t[j] == s[j + start]);
        }
        if end > start {
            assert(t[end - start - 1] == s[end - 1]);
        }
        lemma_trim_end(t, end - start);
        assert(t.subrange(0, end - start) =~= s.subrange(start as int, end as int));
    }
    out
}

/// The trimmed, non-empty pieces.
fn pin_tokens(pieces: &Vec<String>) -> (r: Vec<String>)
    ensures
        strings_view(r@) == pin_tokens_of(strings_view(pieces@)),
{
    let mut tokens: Vec<String> = Vec::new();
    let mut i: usize = 0;
    while i < pieces.len()
        invariant
            i <= pieces@.len(),
            strings_view(tokens@) == pin_tokens_of(strings_view(pieces@).subrange(0, i as int)),
        decreases pieces@.len() - i,
    {
        let t = trim_piece(&pieces[i]);
        let ghost before = strings_view(tokens@);
        assert(strings_view(pieces@).subrange(0, i + 1).drop_last() =~= strings_view(pieces@).subrange(
            0,
            i as int,
        ));
        assert(strings_view(pieces@).subrange(0, i + 1).last() == pieces@[i as int]@);
        if !t.as_str().is_empty() {
            tokens.push(t);
            assert(strings_view(tokens@) =~= before.push(trim(pieces@[i as int]@)));
        }
        i = i + 1;
    }
    assert(strings_view(pieces@).subrange(0, pieces@.len() as int) =~= strings_view(pieces@));
    tokens
}

/// The trimmed, non-empty entries of a list separated by commas or ASCII
/// whitespace.
pub fn separated_entries(spec: &str) -> (r: Vec<String>)
    ensures
        strings_view(r@) == pin_tokens_of(split_pieces(spec@)),
{
    let pieces = split_pin_pieces(spec);
    pin_tokens(&pieces)
}

/// The views of a list of pins.
pub open spec fn pins_view(v: Seq<[u8; 32]>) -> Seq<Seq<u8>> {
    v.map_values(|p: [u8; 32]| p@)
}

proof fn lemma_pins_err_persists(tokens: Seq<Seq<char>>, i: int, f: PinFault)
    requires
        0 <= i <= tokens.len(),
        pins_of(tokens.subrange(0, i)) == Err::<Seq<Seq<u8>>, PinFault>(f),
    ensures
        pins_of(tokens) == Err::<Seq<Seq<u8>>, PinFault>(f),
    decreases tokens.len() - i,
{
    if i == tokens.len() {
        assert(tokens.subrange(0, i) =~= tokens);
    } else {
        assert(tokens.subrange(0, i + 1).drop_last() =~= tokens.subrange(0, i));
        lemma_pins_err_persists(tokens, i + 1, f);
    }
}

fn contains_pin(pins: &Vec<[u8; 32]>, pin: &[u8; 32]) -> (r: bool)
    ensures
        r == pins_view(pins@).contains(pin@),
{
    let mut i: usize = 0;
    while i < pins.len()
        invariant
            i <= pins@.len(),
            forall|j: int| 0 <= j < i ==> pins@[j]@ != pin@,
        decreases pins@.len() - i,
    {
        if constant_time_equal(&pins[i], pin) {
            assert(pins_view(pins@)[i as int] == pin@);
            return true;
        }
        i = i + 1;
    }
    assert forall|j: int| 0 <= j < pins_view(pins@).len() implies pins_view(pins@)[j] != pin@ by {
        assert(pins_view(pins@)[j] == pins@[j]@);
    }
    false
}

/// Parses a comma- or whitespace-separated list of hex SHA-256 authority
/// fingerprints; each must encode exactly 32 non-zero bytes, repeats are
/// dropped and order is kept.
pub fn resolve_authority_fingerprint_list(spec: &str) -> (r: Result<Vec<[u8; 32]>, String>)
    ensures
        match pin_list_of(spec@) {
            Ok(pins) => r is Ok && pins_view(r->Ok_0@) == pins,
            Err(PinFault::InvalidHex(token)) => r is Err && ("invalid trusted authority fingerprint "@
                + token + ": "@).is_prefix_of(r->Err_0@),
            Err(PinFault::WrongLength) => r is Err && r->Err_0@
                == "trusted authority fingerprint must encode exactly 32 bytes"@,
            Err(PinFault::Zero) => r is Err && r->Err_0@
                == "trusted authority fingerprint must be non-zero"@,
        },
{
    let pieces = split_pin_pieces(spec);
    let tokens = pin_tokens(&pieces);
    let ghost all = strings_view(tokens@);
    let mut pins: Vec<[u8; 32]> = Vec::new();
    assert(pins_view(pins@) =~= Seq::<Seq<u8>>::empty());
    assert(all.subrange(0, 0) =~= Seq::<Seq<char>>::empty());
    let mut i: usize = 0;
    while i < tokens.len()
        invariant
            i <= tokens@.len(),
            all == strings_view(tokens@),
            all == pin_tokens_of(split_pieces(spec@)),
            pins_of(all.subrange(0, i as int)) == Ok::<Seq<Seq<u8>>, PinFault>(pins_view(pins@)),
        decreases tokens@.len() - i,
    {
        let token = &tokens[i];
        assert(all[i as int] == token@);
        assert(all.subrange(0, i + 1).drop_last() =~= all.subrange(0, i as int));
        assert(all.subrange(0, i + 1).last() == token@);
        let bytes = match hex_decode(token.as_str()) {
            Ok(bytes) => bytes,
            Err(message) => {
                proof {
                    lemma_pins_err_persists(all, i + 1, PinFault::InvalidHex(token@));
                }
                let mut text = String::from_str("invalid trusted authority fingerprint ");
                text.append(token.as_str());
                text.append(": ");
                text.append(message.as_str());
                return Err(text);
            },
        };
        if bytes.len() != 32 {
            proof {
                lemma_pins_err_persists(all, i + 1, PinFault::WrongLength);
            }
            return Err(String::from_str("trusted authority fingerprint must encode exactly 32 bytes"));
        }
        let pin = array32(bytes.as_slice());
        if crate::wire::all_zero(pin.as_slice()) {
            proof {
                lemma_pins_err_persists(all, i + 1, PinFault::Zero);
            }
            return Err(String::from_str("trusted authority fingerprint must be non-zero"));
        }
        if !contains_pin(&pins, &pin) {
            let ghost before = pins_view(pins@);
            pins.push(pin);
            assert(pins_view(pins@) =~= before.push(pin@));
        }
        i = i + 1;
    }
    assert(all.subrange(0, all.len() as int) =~= all);
    Ok(pins)
}


// ---------------------------------------------------------------------
// Choosing a trusted authority
// ---------------------------------------------------------------------

/// Byte-wise lexicographic order, as `str` orders.
pub open spec fn bytes_less(a: Seq<u8>, b: Seq<u8>) -> bool
    decreases a.len(),
{
    if a.len() == 0 {
        b.len() > 0
    } else if b.len() == 0 {
        false
    } else if a[0] != b[0] {
        a[0] < b[0]
    } else {
        bytes_less(a.drop_first(), b.drop_first())
    }
}

/// `a` orders before `b` as text.
pub open spec fn text_less(a: Seq<char>, b: Seq<char>) -> bool {
    bytes_less(encode_utf8(a), encode_utf8(b))
}

proof fn lemma_bytes_less_transitive(a: Seq<u8>, b: Seq<u8>, c: Seq<u8>)
    requires
        bytes_less(a, b),
        bytes_less(b, c),
    ensures
        bytes_less(a, c),
    decreases a.len(),
{
    if a.len() > 0 && b.len() > 0 && c.len() > 0 && a[0] == b[0] && b[0] == c[0] {
        lemma_bytes_less_transitive(a.drop_first(), b.drop_first(), c.drop_first());
    }
}

proof fn lemma_bytes_less_irreflexive(a: Seq<u8>)
    ensures
        !bytes_less(a, a),
    decreases a.len(),
{
    if a.len() > 0 {
        lemma_bytes_less_irreflexive(a.drop_first());
    }
}

fn bytes_lt(a: &[u8], b: &[u8]) -> (r: bool)
    ensures
        r == bytes_less(a@, b@),
{
    let mut i: usize = 0;
    assert(a@.subrange(0, a@.len() as int) =~= a@);
    assert(b@.subrange(0, b@.len() as int) =~= b@);
    while i < a.len() && i < b.len()
        invariant
            i <= a@.len(),
            i <= b@.len(),
            a@.subrange(0, i as int) == b@.subrange(0, i as int),
            bytes_less(a@, b@) == bytes_less(a@.subrange(i as int, a@.len() as int), b@.subrange(
                i as int,
                b@.len() as int,
            )),
        decreases a@.len() - i,
    {
        let ghost sa = a@.subrange(i as int, a@.len() as int);
        let ghost sb = b@.subrange(i as int, b@.len() as int);
        assert(sa[0] == a@[i as int] && sb[0] == b@[i as int]);
        if a[i] != b[i] {
            return a[i] < b[i];
        }
        assert(sa.drop_first() =~= a@.subrange(i + 1, a@.len() as int));
        assert(sb.drop_first() =~= b@.subrange(i + 1, b@.len() as int));
        assert(a@.subrange(0, i + 1) =~= b@.subrange(0, i + 1)) by {
            assert(a@.subrange(0, i + 1) =~= a@.subrange(0, i as int).push(a@[i as int]));
            assert(b@.subrange(0, i + 1) =~= b@.subrange(0, i as int).push(b@[i as int]));
        }
        i = i + 1;
    }
    let ghost ra = a@.subrange(i as int, a@.len() as int);
    let ghost rb = b@.subrange(i as int, b@.len() as int);
    assert(ra.len() == 0 || rb.len() == 0);
    i >= a.len() && i < b.len()
}

/// An authority discovered at `discovery_source` whose fingerprint is
/// pinned.
#[derive(Clone, Debug, PartialEq, Eq)]
pub struct TrustedAuthorityEndpoint {
    pub discovery_source: String,
    pub node_id: String,
    pub quic_endpoint: String,
    pub authority_fingerprint: [u8; 32],
}

/// The first position of `fp` among the pins.
pub open spec fn pin_rank(pins: Seq<Seq<u8>>, fp: Seq<u8>) -> Option<int>
    decreases pins.len(),
{
    if pins.len() == 0 {
        None
    } else {
        match pin_rank(pins.drop_last(), fp) {
            Some(i) => Some(i),
            None => if pins.last() == fp {
                Some(pins.len() - 1)
            } else {
                None
            },
        }
    }
}

/// A discovered response that may be chosen: pinned, unexpired and
/// speaking the current wire version.
pub open spec fn eligible(r: DiscoveryResponseView, pins: Seq<Seq<u8>>, now: u64) -> bool {
    &&& pin_rank(pins, r.authority_fingerprint) is Some
    &&& r.expires_at_unix_seconds > now
    &&& r.min_wire_version <= DISCOVERY_WIRE_VERSION && DISCOVERY_WIRE_VERSION <= r.max_wire_version
}

/// With no pins configured, no discovered authority is ever eligible:
/// selection fails closed.
pub proof fn lemma_no_pins_no_authority(r: DiscoveryResponseView, now: u64)
    ensures
        !eligible(r, Seq::empty(), now),
{
}

/// An authority whose fingerprint is pinned earlier is preferred: its pin
/// rank is lower.
pub proof fn lemma_pin_rank_is_first_position(pins: Seq<Seq<u8>>, fp: Seq<u8>, i: int)
    requires
        0 <= i < pins.len(),
        pins[i] == fp,
        forall|j: int| 0 <= j < i ==> pins[j] != fp,
    ensures
        pin_rank(pins, fp) == Some(i),
    decreases pins.len(),
{
    if i < pins.len() - 1 {
        let t = pins.drop_last();
        assert(t[i] == fp);
        lemma_pin_rank_is_first_position(t, fp, i);
    } else {
        lemma_pin_rank_absent(pins.drop_last(), fp);
    }
}

proof fn lemma_pin_rank_absent(pins: Seq<Seq<u8>>, fp: Seq<u8>)
    requires
        forall|j: int| 0 <= j < pins.len() ==> pins[j] != fp,
    ensures
        pin_rank(pins, fp) is None,
    decreases pins.len(),
{
    if pins.len() > 0 {
        let t = pins.drop_last();
        assert forall|j: int| 0 <= j < t.len() implies t[j] != fp by {
            assert(t[j] == pins[j]);
        }
        lemma_pin_rank_absent(t, fp);
        assert(pins[pins.len() - 1] != fp);
    }
}

/// Candidate `a` orders before candidate `b`: by pin rank, then node id,
/// endpoint and source text.
pub open spec fn candidate_less(
    a: (Seq<char>, DiscoveryResponseView),
    b: (Seq<char>, DiscoveryResponseView),
    pins: Seq<Seq<u8>>,
) -> bool {
    let ra = pin_rank(pins, a.1.authority_fingerprint)->0;
    let rb = pin_rank(pins, b.1.authority_fingerprint)->0;
    if ra != rb {
        ra < rb
    } else if a.1.node_id != b.1.node_id {
        text_less(a.1.node_id, b.1.node_id)
    } else if a.1.quic_endpoint != b.1.quic_endpoint {
        text_less(a.1.quic_endpoint, b.1.quic_endpoint)
    } else {
        text_less(a.0, b.0)
    }
}

/// The views of the candidates.
pub open spec fn candidates_view(c: Seq<(String, DiscoveryResponse)>) -> Seq<(Seq<char>, DiscoveryResponseView)> {
    c.map_values(|e: (String, DiscoveryResponse)| (e.0@, e.1@))
}

proof fn lemma_text_less_facts(a: Seq<char>, b: Seq<char>, c: Seq<char>)
    ensures
        text_less(a, b) && text_less(b, c) ==> text_less(a, c),
        !text_less(a, a),
        a != b ==> (text_less(a, b) || text_less(b, a) || encode_utf8(a) == encode_utf8(b)),
{
    if text_less(a, b) && text_less(b, c) {
        lemma_bytes_less_transitive(encode_utf8(a), encode_utf8(b), encode_utf8(c));
    }
    lemma_bytes_less_irreflexive(encode_utf8(a));
    if a != b {
        lemma_bytes_total(encode_utf8(a), encode_utf8(b));
    }
}

proof fn lemma_bytes_total(a: Seq<u8>, b: Seq<u8>)
    ensures
        bytes_less(a, b) || bytes_less(b, a) || a == b,
    decreases a.len(),
{
    if a.len() > 0 && b.len() > 0 && a[0] == b[0] {
        lemma_bytes_total(a.drop_first(), b.drop_first());
        if a.drop_first() == b.drop_first() {
            assert(a =~= seq![a[0]] + a.drop_first());
            assert(b =~= seq![b[0]] + b.drop_first());
        }
    } else if a.len() == 0 && b.len() == 0 {
        assert(a =~= b);
    }
}

proof fn lemma_candidate_less_transitive(
    a: (Seq<char>, DiscoveryResponseView),
    b: (Seq<char>, DiscoveryResponseView),
    c: (Seq<char>, DiscoveryResponseView),
    pins: Seq<Seq<u8>>,
)
    requires
        candidate_less(a, b, pins),
        candidate_less(b, c, pins),
    ensures
        candidate_less(a, c, pins),
{
    lemma_text_less_facts(a.1.node_id, b.1.node_id, c.1.node_id);
    lemma_text_less_facts(a.1.quic_endpoint, b.1.quic_endpoint, c.1.quic_endpoint);
    lemma_text_less_facts(a.0, b.0, c.0);
    lemma_text_less_facts(c.1.node_id, a.1.node_id, b.1.node_id);
    lemma_text_less_facts(c.1.quic_endpoint, a.1.quic_endpoint, b.1.quic_endpoint);
    lemma_text_less_facts(b.1.node_id, c.1.node_id, a.1.node_id);
    lemma_text_less_facts(b.1.quic_endpoint, c.1.quic_endpoint, a.1.quic_endpoint);
}

fn pin_position(pins: &[[u8; 32]], fp: &[u8; 32]) -> (r: Option<usize>)
    ensures
        match r {
            Some(k) => pin_rank(pins_view(pins@), fp@) == Some(k as int),
            None => pin_rank(pins_view(pins@), fp@) is None,
        },
{
    let ghost pv = pins_view(pins@);
    let mut i: usize = 0;
    while i < pins.len()
        invariant
            i <= pins@.len(),
            pv == pins_view(pins@),
            pin_rank(pv.subrange(0, i as int), fp@) is None,
        decreases pins@.len() - i,
    {
        assert(pv.subrange(0, i + 1).drop_last() =~= pv.subrange(0, i as int));
        assert(pv[i as int] == pins@[i as int]@);
        if constant_time_equal(&pins[i], fp) {
            proof {
                lemma_pin_rank_prefix(pv, i as int + 1, fp@);
            }
            assert(pin_rank(pv.subrange(0, i + 1), fp@) == Some(i as int));
            return Some(i);
        }
        i = i + 1;
    }
    assert(pv.subrange(0, pins@.len() as int) =~= pv);
    None
}

proof fn lemma_pin_rank_prefix(pins: Seq<Seq<u8>>, k: int, fp: Seq<u8>)
    requires
        0 <= k <= pins.len(),
        pin_rank(pins.subrange(0, k), fp) is Some,
    ensures
        pin_rank(pins, fp) == pin_rank(pins.subrange(0, k), fp),
    decreases pins.len() - k,
{
    if k < pins.len() {
        assert(pins.subrange(0, k + 1).drop_last() =~= pins.subrange(0, k));
        lemma_pin_rank_prefix(pins, k + 1, fp);
    } else {
        assert(pins.subrange(0, k) =~= pins);
    }
}

proof fn lemma_pin_rank_bound(pins: Seq<Seq<u8>>, fp: Seq<u8>)
    ensures
        pin_rank(pins, fp) matches Some(i) ==> 0 <= i < pins.len(),
    decreases pins.len(),
{
    if pins.len() > 0 {
        lemma_pin_rank_bound(pins.drop_last(), fp);
    }
}

proof fn lemma_pin_rank_names_the_pin(pins: Seq<Seq<u8>>, fp: Seq<u8>)
    ensures
        pin_rank(pins, fp) matches Some(i) ==> 0 <= i < pins.len() && pins[i] == fp,
    decreases pins.len(),
{
    if pins.len() > 0 {
        lemma_pin_rank_names_the_pin(pins.drop_last(), fp);
    }
}

proof fn lemma_encode_utf8_injective(a: Seq<char>, b: Seq<char>)
    requires
        encode_utf8(a) == encode_utf8(b),
    ensures
        a == b,
{
    encode_utf8_decode_utf8(a);
    encode_utf8_decode_utf8(b);
}

/// Candidate `i` of `c` is the one chosen: eligible, and no eligible
/// candidate orders before it.
pub open spec fn selected_at(c: Seq<(Seq<char>, DiscoveryResponseView)>, pins: Seq<Seq<u8>>, now: u64, i: int) -> bool {
    &&& 0 <= i < c.len()
    &&& eligible(c[i].1, pins, now)
    &&& forall|k: int| 0 <= k < c.len() && eligible(#[trigger] c[k].1, pins, now) ==> !candidate_less(c[k], c[i], pins)
}

/// Selection does not depend on the order in which candidates were
/// discovered: two candidate lists with the same members choose the same
/// source, node, endpoint and fingerprint.
pub proof fn lemma_selection_is_order_independent(
    c1: Seq<(Seq<char>, DiscoveryResponseView)>,
    c2: Seq<(Seq<char>, DiscoveryResponseView)>,
    pins: Seq<Seq<u8>>,
    now: u64,
    i: int,
    j: int,
)
    requires
        forall|x: (Seq<char>, DiscoveryResponseView)| c1.contains(x) <==> c2.contains(x),
        selected_at(c1, pins, now, i),
        selected_at(c2, pins, now, j),
    ensures
        c1[i].0 == c2[j].0,
        c1[i].1.node_id == c2[j].1.node_id,
        c1[i].1.quic_endpoint == c2[j].1.quic_endpoint,
        c1[i].1.authority_fingerprint == c2[j].1.authority_fingerprint,
{
    let a = c1[i];
    let b = c2[j];
    assert(c1.contains(a));
    assert(c2.contains(b));
    let ka = choose|k: int| 0 <= k < c2.len() && c2[k] == a;
    let kb = choose|k: int| 0 <= k < c1.len() && c1[k] == b;
    assert(eligible(c2[ka].1, pins, now));
    assert(eligible(c1[kb].1, pins, now));
    assert(!candidate_less(a, b, pins));
    assert(!candidate_less(b, a, pins));
    lemma_pin_rank_names_the_pin(pins, a.1.authority_fingerprint);
    lemma_pin_rank_names_the_pin(pins, b.1.authority_fingerprint);
    lemma_text_less_facts(a.1.node_id, b.1.node_id, a.1.node_id);
    lemma_text_less_facts(a.1.quic_endpoint, b.1.quic_endpoint, a.1.quic_endpoint);
    lemma_text_less_facts(a.0, b.0, a.0);
    if encode_utf8(a.1.node_id) == encode_utf8(b.1.node_id) {
        lemma_encode_utf8_injective(a.1.node_id, b.1.node_id);
    }
    if encode_utf8(a.1.quic_endpoint) == encode_utf8(b.1.quic_endpoint) {
        lemma_encode_utf8_injective(a.1.quic_endpoint, b.1.quic_endpoint);
    }
    if encode_utf8(a.0) == encode_utf8(b.0) {
        lemma_encode_utf8_injective(a.0, b.0);
    }
}

fn candidate_lt(
    a: &(String, DiscoveryResponse),
    a_rank: usize,
    b: &(String, DiscoveryResponse),
    b_rank: usize,
    Ghost(pins): Ghost<Seq<Seq<u8>>>,
) -> (r: bool)
    requires
        pin_rank(pins, a.1@.authority_fingerprint) == Some(a_rank as int),
        pin_rank(pins, b.1@.authority_fingerprint) == Some(b_rank as int),
    ensures
        r == candidate_less((a.0@, a.1@), (b.0@, b.1@), pins),
{
    if a_rank != b_rank {
        return a_rank < b_rank;
    }
    if !crate::text::str_eq(a.1.node_id.as_str(), b.1.node_id.as_str()) {
        return bytes_lt(a.1.node_id.as_str().as_bytes(), b.1.node_id.as_str().as_bytes());
    }
    if !crate::text::str_eq(a.1.quic_endpoint.as_str(), b.1.quic_endpoint.as_str()) {
        return bytes_lt(
            a.1.quic_endpoint.as_str().as_bytes(),
            b.1.quic_endpoint.as_str().as_bytes(),
        );
    }
    bytes_lt(a.0.as_str().as_bytes(), b.0.as_str().as_bytes())
}

/// The eligible candidate that orders first: the best-ranked pin, then the
/// smallest node id, endpoint and source text.
pub fn select_trusted_authority(
    candidates: &[(String, DiscoveryResponse)],
    pins: &[[u8; 32]],
    now: u64,
) -> (r: Option<TrustedAuthorityEndpoint>)
    ensures
        match r {
            None => forall|i: int|
                0 <= i < candidates@.len() ==> !eligible(
                    #[trigger] candidates_view(candidates@)[i].1,
                    pins_view(pins@),
                    now,
                ),
            Some(sel) => exists|i: int|
                #[trigger] selected_at(candidates_view(candidates@), pins_view(pins@), now, i) && {
                    let c = candidates_view(candidates@)[i];
                    &&& sel.discovery_source@ == c.0
                    &&& sel.node_id@ == c.1.node_id
                    &&& sel.quic_endpoint@ == c.1.quic_endpoint
                    &&& sel.authority_fingerprint@ == c.1.authority_fingerprint
                },
        },
{
    let ghost cv = candidates_view(candidates@);
    let ghost pv = pins_view(pins@);
    let mut best: Option<(usize, usize)> = None;
    let mut i: usize = 0;
    while i < candidates.len()
        invariant
            i <= candidates@.len(),
            cv == candidates_view(candidates@),
            pv == pins_view(pins@),
            match best {
                None => forall|j: int| 0 <= j < i ==> !eligible(#[trigger] cv[j].1, pv, now),
                Some((b, rank)) => b < i && eligible(cv[b as int].1, pv, now) && pin_rank(
                    pv,
                    cv[b as int].1.authority_fingerprint,
                ) == Some(rank as int) && forall|j: int|
                    0 <= j < i && eligible(#[trigger] cv[j].1, pv, now) ==> !candidate_less(
                        cv[j],
                        cv[b as int],
                        pv,
                    ),
            },
        decreases candidates@.len() - i,
    {
        let c = &candidates[i];
        assert(cv[i as int] == (c.0@, c.1@));
        let rank = match pin_position(pins, &c.1.authority_fingerprint) {
            Some(rank) => rank,
            None => {
                i = i + 1;
                continue;
            },
        };
        if c.1.expires_at_unix_seconds <= now || !version_ranges_overlap(
            c.1.min_wire_version,
            c.1.max_wire_version,
            DISCOVERY_WIRE_VERSION,
            DISCOVERY_WIRE_VERSION,
        ) {
            i = i + 1;
            continue;
        }
        match best {
            None => {
                proof {
                    lemma_text_less_facts(cv[i as int].1.node_id, cv[i as int].1.node_id, cv[i as int].1.node_id);
                    lemma_text_less_facts(cv[i as int].1.quic_endpoint, cv[i as int].1.quic_endpoint, cv[i as int].1.quic_endpoint);
                    lemma_text_less_facts(cv[i as int].0, cv[i as int].0, cv[i as int].0);
                }
                best = Some((i, rank));
            },
            Some((b, b_rank)) => {
                assert(cv[b as int] == (candidates@[b as int].0@, candidates@[b as int].1@));
                if candidate_lt(c, rank, &candidates[b], b_rank, Ghost(pv)) {
                    proof {
                        assert forall|j: int|
                            0 <= j < i + 1 && eligible(#[trigger] cv[j].1, pv, now) implies !candidate_less(
                            cv[j],
                            cv[i as int],
                            pv,
                        ) by {
                            if j < i && candidate_less(cv[j], cv[i as int], pv) {
                                lemma_candidate_less_transitive(cv[j], cv[i as int], cv[b as int], pv);
                            }
                            if j == i {
                                lemma_text_less_facts(cv[j].1.node_id, cv[j].1.node_id, cv[j].1.node_id);
                                lemma_text_less_facts(cv[j].1.quic_endpoint, cv[j].1.quic_endpoint, cv[j].1.quic_endpoint);
                                lemma_text_less_facts(cv[j].0, cv[j].0, cv[j].0);
                            }
                        }
                    }
                    best = Some((i, rank));
                }
            },
        }
        i = i + 1;
    }
    match best {
        None => None,
        Some((b, _)) => {
            let c = &candidates[b];
            assert(cv[b as int] == (c.0@, c.1@));
            assert(selected_at(cv, pv, now, b as int));
            Some(
                TrustedAuthorityEndpoint {
                    discovery_source: copy_string(&c.0),
                    node_id: copy_string(&c.1.node_id),
                    quic_endpoint: copy_string(&c.1.quic_endpoint),
                    authority_fingerprint: c.1.authority_fingerprint,
                },
            )
        },
    }
}


// ---------------------------------------------------------------------
// The local authority advertisement
// ---------------------------------------------------------------------

/// What this node advertises as an authority, when it is one.
#[derive(Debug, Clone)]
pub struct LocalAuthorityAdvertisement {
    pub node_id: String,
    pub quic_endpoint: String,
    pub authority_fingerprint: [u8; 32],
}

/// The response a node would send for its advertisement, as checked
/// before it is used.
pub open spec fn advertised_response(a: LocalAuthorityAdvertisement) -> DiscoveryResponseView {
    advertisement_response(a.node_id@, a.quic_endpoint@, a.authority_fingerprint@)
}

/// The response a node would send for an advertisement of these values.
pub open spec fn advertisement_response(node_id: Seq<char>, quic_endpoint: Seq<char>, fingerprint: Seq<u8>) -> DiscoveryResponseView {
    DiscoveryResponseView {
        request_id: seq![1u8; 16],
        node_id: node_id,
        quic_endpoint: quic_endpoint,
        authority_fingerprint: fingerprint,
        min_wire_version: DISCOVERY_WIRE_VERSION,
        max_wire_version: DISCOVERY_WIRE_VERSION,
        capabilities: Seq::empty(),
        expires_at_unix_seconds: 1,
    }
}

/// Checks an advertisement as a discovery response would be checked.
pub fn validate_local_authority(authority: &LocalAuthorityAdvertisement) -> (r: Result<(), String>)
    ensures
        match response_fault(advertised_response(*authority)) {
            Some(f) => r is Err && r->Err_0@ == "invalid local EAB authority advertisement: "@
                + crate::wire::wire_error_text(crate::wire::WireError::InvalidField(f)),
            None => r is Ok,
        },
{
    let response = DiscoveryResponse {
        request_id: [1u8; 16],
        node_id: copy_string(&authority.node_id),
        quic_endpoint: copy_string(&authority.quic_endpoint),
        authority_fingerprint: authority.authority_fingerprint,
        min_wire_version: DISCOVERY_WIRE_VERSION,
        max_wire_version: DISCOVERY_WIRE_VERSION,
        capabilities: Vec::new(),
        expires_at_unix_seconds: 1,
    };
    assert(response@.request_id =~= seq![1u8; 16]);
    assert(response@.capabilities =~= Seq::<u16>::empty());
    assert(response@ == advertised_response(*authority));
    match validate_response(&response) {
        Ok(()) => Ok(()),
        Err(error) => {
            let mut text = String::from_str("invalid local EAB authority advertisement: ");
            let detail = error.message();
            text.append(detail.as_str());
            Err(text)
        },
    }
}

/// A configured value: trimmed, and only where something is left.
pub open spec fn configured(value: Option<Seq<char>>) -> Option<Seq<char>> {
    match value {
        Some(v) => if trim(v).len() > 0 {
            Some(trim(v))
        } else {
            None
        },
        None => None,
    }
}

fn configured_text(value: Option<&str>) -> (r: Option<String>)
    ensures
        match configured(crate::access::opt_str_view(value)) {
            Some(v) => r matches Some(t) && t@ == v,
            None => r is None,
        },
{
    match value {
        Some(v) => {
            let t = trim_piece(&String::from_str(v));
            if t.as_str().is_empty() {
                None
            } else {
                Some(t)
            }
        },
        None => None,
    }
}

/// The authority this node advertises, from its configured QUIC endpoint
/// and hex fingerprint: none where neither is set, refused where only one
/// is, and where both are, the advertisement once the fingerprint decodes
/// to 32 bytes and the advertisement passes the discovery checks.
pub fn resolve_local_authority(node_id: String, endpoint: Option<&str>, fingerprint_hex: Option<&str>) -> (r: Result<
    Option<LocalAuthorityAdvertisement>,
    String,
>)
    ensures
        match (
            configured(crate::access::opt_str_view(endpoint)),
            configured(crate::access::opt_str_view(fingerprint_hex)),
        ) {
            (None, None) => r matches Ok(None),
            (Some(_), None) => r matches Err(m) && m@
                == "EAB_QUIC_ENDPOINT requires EAB_AUTHORITY_FINGERPRINT_HEX; refusing partial authority advertisement"@,
            (None, Some(_)) => r matches Err(m) && m@
                == "EAB_AUTHORITY_FINGERPRINT_HEX requires EAB_QUIC_ENDPOINT; refusing partial authority advertisement"@,
            (Some(e), Some(h)) => match hex_decode_of(encode_utf8(h)) {
                None => r matches Err(m) && "invalid EAB_AUTHORITY_FINGERPRINT_HEX: "@.is_prefix_of(m@),
                Some(bytes) => if bytes.len() != 32 {
                    r matches Err(m) && m@ == "EAB_AUTHORITY_FINGERPRINT_HEX must encode exactly 32 bytes"@
                } else {
                    match response_fault(advertisement_response(node_id@, e, bytes)) {
                        Some(f) => r matches Err(m) && m@ == "invalid local EAB authority advertisement: "@
                            + crate::wire::wire_error_text(crate::wire::WireError::InvalidField(f)),
                        None => r matches Ok(Some(a)) && a.node_id@ == node_id@ && a.quic_endpoint@ == e
                            && a.authority_fingerprint@ == bytes,
                    }
                },
            },
        },
{
    let endpoint = configured_text(endpoint);
    let fingerprint = configured_text(fingerprint_hex);
    match (endpoint, fingerprint) {
        (None, None) => Ok(None),
        (Some(_), None) => Err(
            String::from_str(
                "EAB_QUIC_ENDPOINT requires EAB_AUTHORITY_FINGERPRINT_HEX; refusing partial authority advertisement",
            ),
        ),
        (None, Some(_)) => Err(
            String::from_str(
                "EAB_AUTHORITY_FINGERPRINT_HEX requires EAB_QUIC_ENDPOINT; refusing partial authority advertisement",
            ),
        ),
        (Some(quic_endpoint), Some(encoded)) => {
            let bytes = match hex_decode(encoded.as_str()) {
                Ok(b) => b,
                Err(message) => {
                    let mut text = String::from_str("invalid EAB_AUTHORITY_FINGERPRINT_HEX: ");
                    text.append(message.as_str());
                    proof {
                        reveal_strlit("invalid EAB_AUTHORITY_FINGERPRINT_HEX: ");
                        let lead = "invalid EAB_AUTHORITY_FINGERPRINT_HEX: "@;
                        assert(text@.subrange(0, lead.len() as int) =~= lead);
                    }
                    return Err(text);
                },
            };
            if bytes.len() != AUTHORITY_FINGERPRINT_LEN {
                return Err(String::from_str("EAB_AUTHORITY_FINGERPRINT_HEX must encode exactly 32 bytes"));
            }
            let advertisement = LocalAuthorityAdvertisement {
                node_id,
                quic_endpoint,
                authority_fingerprint: array32(bytes.as_slice()),
            };
            match validate_local_authority(&advertisement) {
                Ok(()) => Ok(Some(advertisement)),
                Err(e) => Err(e),
            }
        },
    }
}

// ---------------------------------------------------------------------
// Node status
// ---------------------------------------------------------------------

#[derive(Debug, Clone, PartialEq, Eq)]
pub struct NodeStatusSnapshot {
    pub ledger_backend: String,
    pub qcoin_node_target: Option<String>,
    pub anchor_outbox_pending: usize,
    pub anchor_outbox_pending_submission: usize,
    pub anchor_outbox_accepted_not_included: usize,
    pub last_anchor_accepted_unix_seconds: Option<u64>,
    pub last_anchor_included_unix_seconds: Option<u64>,
    pub last_anchor_success_unix_seconds: Option<u64>,
    pub last_anchor_error: Option<String>,
    pub last_anchor_error_unix_seconds: Option<u64>,
}

impl NodeStatusSnapshot {
    /// A copy with the same fields.
    pub fn duplicate(&self) -> (r: Self)
        ensures
            r.ledger_backend@ == self.ledger_backend@,
            crate::text::opt_view(r.qcoin_node_target) == crate::text::opt_view(
                self.qcoin_node_target,
            ),
            r.anchor_outbox_pending == self.anchor_outbox_pending,
            r.anchor_outbox_pending_submission == self.anchor_outbox_pending_submission,
            r.anchor_outbox_accepted_not_included == self.anchor_outbox_accepted_not_included,
            r.last_anchor_accepted_unix_seconds == self.last_anchor_accepted_unix_seconds,
            r.last_anchor_included_unix_seconds == self.last_anchor_included_unix_seconds,
            r.last_anchor_success_unix_seconds == self.last_anchor_success_unix_seconds,
            crate::text::opt_view(r.last_anchor_error) == crate::text::opt_view(
                self.last_anchor_error,
            ),
            r.last_anchor_error_unix_seconds == self.last_anchor_error_unix_seconds,
    {
        NodeStatusSnapshot {
            ledger_backend: copy_string(&self.ledger_backend),
            qcoin_node_target: crate::text::copy_opt_string(&self.qcoin_node_target),
            anchor_outbox_pending: self.anchor_outbox_pending,
            anchor_outbox_pending_submission: self.anchor_outbox_pending_submission,
            anchor_outbox_accepted_not_included: self.anchor_outbox_accepted_not_included,
            last_anchor_accepted_unix_seconds: self.last_anchor_accepted_unix_seconds,
            last_anchor_included_unix_seconds: self.last_anchor_included_unix_seconds,
            last_anchor_success_unix_seconds: self.last_anchor_success_unix_seconds,
            last_anchor_error: crate::text::copy_opt_string(&self.last_anchor_error),
            last_anchor_error_unix_seconds: self.last_anchor_error_unix_seconds,
        }
    }
}

/// Two snapshots report the same status, field by field.
pub open spec fn same_status(a: NodeStatusSnapshot, b: NodeStatusSnapshot) -> bool {
    &&& a.ledger_backend@ == b.ledger_backend@
    &&& crate::text::opt_view(a.qcoin_node_target) == crate::text::opt_view(b.qcoin_node_target)
    &&& a.anchor_outbox_pending == b.anchor_outbox_pending
    &&& a.anchor_outbox_pending_submission == b.anchor_outbox_pending_submission
    &&& a.anchor_outbox_accepted_not_included == b.anchor_outbox_accepted_not_included
    &&& a.last_anchor_accepted_unix_seconds == b.last_anchor_accepted_unix_seconds
    &&& a.last_anchor_included_unix_seconds == b.last_anchor_included_unix_seconds
    &&& a.last_anchor_success_unix_seconds == b.last_anchor_success_unix_seconds
    &&& crate::text::opt_view(a.last_anchor_error) == crate::text::opt_view(b.last_anchor_error)
    &&& a.last_anchor_error_unix_seconds == b.last_anchor_error_unix_seconds
}

/// A source of node status for the authenticated status service.
pub trait EabNodeStatusProvider {
    fn snapshot(&self) -> NodeStatusSnapshot;
}

/// A status provider whose snapshot never changes.
#[derive(Debug, Clone)]
pub struct StaticStatusProvider {
    snapshot: NodeStatusSnapshot,
}

impl StaticStatusProvider {
    /// The snapshot it answers with.
    pub closed spec fn fixed(&self) -> NodeStatusSnapshot {
        self.snapshot
    }

    /// A provider for a node on `ledger_backend` with nothing anchored yet.
    pub fn new(ledger_backend: &str) -> (r: Self)
        ensures
            r.fixed().ledger_backend@ == ledger_backend@,
            r.fixed().qcoin_node_target is None,
            r.fixed().anchor_outbox_pending == 0,
            r.fixed().anchor_outbox_pending_submission == 0,
            r.fixed().anchor_outbox_accepted_not_included == 0,
            r.fixed().last_anchor_accepted_unix_seconds is None,
            r.fixed().last_anchor_included_unix_seconds is None,
            r.fixed().last_anchor_success_unix_seconds is None,
            r.fixed().last_anchor_error is None,
            r.fixed().last_anchor_error_unix_seconds is None,
    {
        StaticStatusProvider {
            snapshot: NodeStatusSnapshot {
                ledger_backend: String::from_str(ledger_backend),
                qcoin_node_target: None,
                anchor_outbox_pending: 0,
                anchor_outbox_pending_submission: 0,
                anchor_outbox_accepted_not_included: 0,
                last_anchor_accepted_unix_seconds: None,
                last_anchor_included_unix_seconds: None,
                last_anchor_success_unix_seconds: None,
                last_anchor_error: None,
                last_anchor_error_unix_seconds: None,
            },
        }
    }
}

impl EabNodeStatusProvider for StaticStatusProvider {
    fn snapshot(&self) -> (r: NodeStatusSnapshot)
        ensures
            same_status(r, self.fixed()),
    {
        self.snapshot.duplicate()
    }
}

} // verus!
