//! Field readers shared by the discovery and secure message codecs, with
//! the spec parsers they follow and the facts that tie the parsers to the
//! bytes the writers produce.

use vstd::prelude::*;
use vstd::utf8::*;
use crate::cbor::{
    cbor_array_at, cbor_bytes, cbor_head, cbor_read_array, cbor_read_bytes, cbor_read_str,
    cbor_read_u64, cbor_string_at, cbor_text, cbor_uint_at, lemma_head_at, MAJOR_ARRAY,
    MAJOR_BYTES, MAJOR_TEXT, MAJOR_UNSIGNED,
};
use crate::wire::{
    text_allow_controls_ok, text_ok, validate_text, validate_text_allow_controls, WireError,
};

verus! {

broadcast use {encode_utf8_valid_utf8, encode_utf8_decode_utf8};

/// A byte string of exactly `n` bytes at `pos`.
pub open spec fn parse_bytes_n(buf: Seq<u8>, pos: int, n: nat) -> Option<(Seq<u8>, int)> {
    match cbor_string_at(buf, pos, MAJOR_BYTES) {
        Some((b, e)) => if b.len() == n {
            Some((b, e))
        } else {
            None
        },
        None => None,
    }
}

/// An unsigned integer at `pos` that is at most `bound`.
pub open spec fn parse_uint_max(buf: Seq<u8>, pos: int, bound: int) -> Option<(u64, int)> {
    match cbor_uint_at(buf, pos) {
        Some((v, e)) => if v <= bound {
            Some((v, e))
        } else {
            None
        },
        None => None,
    }
}

/// A definite-length array head of exactly `n` items at `pos`.
pub open spec fn parse_array_n(buf: Seq<u8>, pos: int, n: u64) -> Option<int> {
    match cbor_array_at(buf, pos) {
        Some((Some(k), e)) => if k == n {
            Some(e)
        } else {
            None
        },
        _ => None,
    }
}

/// A text item at `pos` that holds valid UTF-8 meeting `text_ok`.
pub open spec fn parse_text(buf: Seq<u8>, pos: int, maximum: int) -> Option<(Seq<char>, int)> {
    match cbor_string_at(buf, pos, MAJOR_TEXT) {
        Some((c, e)) => if valid_utf8(c) && text_ok(decode_utf8(c), maximum) {
            Some((decode_utf8(c), e))
        } else {
            None
        },
        None => None,
    }
}

/// A text item at `pos` that holds valid UTF-8 meeting
/// `text_allow_controls_ok`.
pub open spec fn parse_text_allow_controls(buf: Seq<u8>, pos: int, maximum: int) -> Option<
    (Seq<char>, int),
> {
    match cbor_string_at(buf, pos, MAJOR_TEXT) {
        Some((c, e)) => if valid_utf8(c) && text_allow_controls_ok(decode_utf8(c), maximum) {
            Some((decode_utf8(c), e))
        } else {
            None
        },
        None => None,
    }
}

/// Copies a 16-byte slice into an array.
pub fn array16(b: &[u8]) -> (a: [u8; 16])
    requires
        b@.len() == 16,
    ensures
        a@ == b@,
{
    let mut a = [0u8; 16];
    let mut i: usize = 0;
    while i < 16
        invariant
            i <= 16,
            b@.len() == 16,
            forall|j: int| 0 <= j < i ==> a@[j] == b@[j],
        decreases 16 - i,
    {
        a[i] = b[i];
        i = i + 1;
    }
    assert(a@ =~= b@);
    a
}

/// Copies a 32-byte slice into an array.
pub fn array32(b: &[u8]) -> (a: [u8; 32])
    requires
        b@.len() == 32,
    ensures
        a@ == b@,
{
    let mut a = [0u8; 32];
    let mut i: usize = 0;
    while i < 32
        invariant
            i <= 32,
            b@.len() == 32,
            forall|j: int| 0 <= j < i ==> a@[j] == b@[j],
        decreases 32 - i,
    {
        a[i] = b[i];
        i = i + 1;
    }
    assert(a@ =~= b@);
    a
}

/// Reads a 16-byte string at `pos`; another length is `InvalidField(field)`.
pub fn read_bytes16(input: &[u8], pos: usize, field: &'static str) -> (r: Result<
    ([u8; 16], usize),
    WireError,
>)
    ensures
        match r {
            Ok((a, e)) => parse_bytes_n(input@, pos as int, 16) == Some((a@, e as int)) && e <= input@.len(),
            Err(_) => parse_bytes_n(input@, pos as int, 16) is None,
        },
{
    match cbor_read_bytes(input, pos) {
        Ok((bytes, end)) => {
            if bytes.len() != 16 {
                return Err(WireError::InvalidField(field));
            }
            Ok((array16(bytes.as_slice()), end))
        },
        Err(message) => Err(WireError::CborDecode(message)),
    }
}

/// Reads a 32-byte string at `pos`; another length is `InvalidField(field)`.
pub fn read_bytes32(input: &[u8], pos: usize, field: &'static str) -> (r: Result<
    ([u8; 32], usize),
    WireError,
>)
    ensures
        match r {
            Ok((a, e)) => parse_bytes_n(input@, pos as int, 32) == Some((a@, e as int)) && e <= input@.len(),
            Err(_) => parse_bytes_n(input@, pos as int, 32) is None,
        },
{
    match cbor_read_bytes(input, pos) {
        Ok((bytes, end)) => {
            if bytes.len() != 32 {
                return Err(WireError::InvalidField(field));
            }
            Ok((array32(bytes.as_slice()), end))
        },
        Err(message) => Err(WireError::CborDecode(message)),
    }
}

/// Reads an unsigned integer at `pos`.
pub fn read_u64(input: &[u8], pos: usize) -> (r: Result<(u64, usize), WireError>)
    ensures
        match r {
            Ok((v, e)) => cbor_uint_at(input@, pos as int) == Some((v, e as int)) && e <= input@.len(),
            Err(_) => cbor_uint_at(input@, pos as int) is None,
        },
{
    match cbor_read_u64(input, pos) {
        Ok((v, end)) => Ok((v, end)),
        Err(message) => Err(WireError::CborDecode(message)),
    }
}

/// Reads an unsigned integer at `pos` that must fit in a `u32`.
pub fn read_u32(input: &[u8], pos: usize) -> (r: Result<(u32, usize), WireError>)
    ensures
        match r {
            Ok((v, e)) => parse_uint_max(input@, pos as int, 0xffff_ffff) == Some(
                (v as u64, e as int),
            ) && e <= input@.len(),
            Err(_) => parse_uint_max(input@, pos as int, 0xffff_ffff) is None,
        },
{
    match cbor_read_u64(input, pos) {
        Ok((v, end)) => {
            if v > 0xffff_ffff {
                return Err(WireError::CborDecode(String::from_str("integer does not fit u32")));
            }
            Ok((v as u32, end))
        },
        Err(message) => Err(WireError::CborDecode(message)),
    }
}

/// Reads an unsigned integer at `pos` that must fit in a `u16`.
pub fn read_u16(input: &[u8], pos: usize) -> (r: Result<(u16, usize), WireError>)
    ensures
        match r {
            Ok((v, e)) => parse_uint_max(input@, pos as int, 0xffff) == Some((v as u64, e as int)) && e <= input@.len(),
            Err(_) => parse_uint_max(input@, pos as int, 0xffff) is None,
        },
{
    match cbor_read_u64(input, pos) {
        Ok((v, end)) => {
            if v > 0xffff {
                return Err(WireError::CborDecode(String::from_str("integer does not fit u16")));
            }
            Ok((v as u16, end))
        },
        Err(message) => Err(WireError::CborDecode(message)),
    }
}

/// Reads an unsigned integer at `pos` that must fit in a `u8`.
pub fn read_u8(input: &[u8], pos: usize) -> (r: Result<(u8, usize), WireError>)
    ensures
        match r {
            Ok((v, e)) => parse_uint_max(input@, pos as int, 0xff) == Some((v as u64, e as int)) && e <= input@.len(),
            Err(_) => parse_uint_max(input@, pos as int, 0xff) is None,
        },
{
    match cbor_read_u64(input, pos) {
        Ok((v, end)) => {
            if v > 0xff {
                return Err(WireError::CborDecode(String::from_str("integer does not fit u8")));
            }
            Ok((v as u8, end))
        },
        Err(message) => Err(WireError::CborDecode(message)),
    }
}

/// Reads the head of an array that must have exactly `expected` items.
pub fn expect_array(input: &[u8], pos: usize, field: &'static str, expected: u64) -> (r: Result<
    usize,
    WireError,
>)
    ensures
        match r {
            Ok(e) => parse_array_n(input@, pos as int, expected) == Some(e as int) && e <= input@.len(),
            Err(_) => parse_array_n(input@, pos as int, expected) is None,
        },
{
    match cbor_read_array(input, pos) {
        Ok((None, _)) => Err(WireError::IndefiniteLength(field)),
        Ok((Some(actual), end)) => {
            if actual != expected {
                return Err(WireError::UnexpectedArrayLength { field, expected, actual });
            }
            Ok(end)
        },
        Err(message) => Err(WireError::CborDecode(message)),
    }
}

/// Reads a text item that must meet `text_ok(_, maximum)`; a violation is
/// `InvalidField(field)`.
pub fn read_text(input: &[u8], pos: usize, maximum: usize, field: &'static str) -> (r: Result<
    (String, usize),
    WireError,
>)
    ensures
        match r {
            Ok((s, e)) => parse_text(input@, pos as int, maximum as int) == Some((s@, e as int)) && e <= input@.len(),
            Err(_) => parse_text(input@, pos as int, maximum as int) is None,
        },
{
    match cbor_read_str(input, pos) {
        Ok((text, end)) => {
            match validate_text(text.as_str(), maximum, field) {
                Ok(()) => Ok((text, end)),
                Err(error) => Err(error),
            }
        },
        Err(message) => Err(WireError::CborDecode(message)),
    }
}

/// Reads a text item that must meet `text_allow_controls_ok(_, maximum)`.
pub fn read_text_allow_controls(input: &[u8], pos: usize, maximum: usize, field: &'static str) -> (r:
    Result<(String, usize), WireError>)
    ensures
        match r {
            Ok((s, e)) => parse_text_allow_controls(input@, pos as int, maximum as int) == Some(
                (s@, e as int),
            ) && e <= input@.len(),
            Err(_) => parse_text_allow_controls(input@, pos as int, maximum as int) is None,
        },
{
    match cbor_read_str(input, pos) {
        Ok((text, end)) => {
            match validate_text_allow_controls(text.as_str(), maximum, field) {
                Ok(()) => Ok((text, end)),
                Err(error) => Err(error),
            }
        },
        Err(message) => Err(WireError::CborDecode(message)),
    }
}

// ---------------------------------------------------------------------
// What the writers produce is read back.
// ---------------------------------------------------------------------

/// `piece` stands in `buf` at `pos`.
pub open spec fn placed(buf: Seq<u8>, pos: int, piece: Seq<u8>) -> bool {
    0 <= pos && pos + piece.len() <= buf.len() && buf.subrange(pos, pos + piece.len()) == piece
}

/// Two pieces placed one after the other.
pub proof fn lemma_placed_split(buf: Seq<u8>, pos: int, a: Seq<u8>, b: Seq<u8>)
    requires
        placed(buf, pos, a + b),
    ensures
        placed(buf, pos, a),
        placed(buf, pos + a.len(), b),
{
    let whole = buf.subrange(pos, pos + (a + b).len());
    assert forall|i: int| 0 <= i < a.len() implies buf.subrange(pos, pos + a.len())[i] == a[i] by {
        assert(whole[i] == (a + b)[i]);
    }
    assert forall|i: int| 0 <= i < b.len() implies buf.subrange(
        pos + a.len(),
        pos + a.len() + b.len(),
    )[i] == b[i] by {
        assert(whole[a.len() + i] == (a + b)[a.len() + i]);
    }
    assert(buf.subrange(pos, pos + a.len()) =~= a);
    assert(buf.subrange(pos + a.len(), pos + a.len() + b.len()) =~= b);
}

pub proof fn lemma_head_bounds(major: u8, v: u64)
    ensures
        1 <= cbor_head(major, v).len() <= 9,
{
    crate::cbor::lemma_be_roundtrip(0, 0);
    if v >= 0x100 {
        let w: nat = if v < 0x1_0000 {
            2
        } else if v < 0x1_0000_0000 {
            4
        } else {
            8
        };
        assert(crate::cbor::pow256(w) >= v + 1) by {
            reveal_with_fuel(crate::cbor::pow256, 9);
        }
        crate::cbor::lemma_be_roundtrip(v as int, w);
    }
}

pub proof fn lemma_parse_uint(buf: Seq<u8>, pos: int, v: u64, bound: int)
    requires
        placed(buf, pos, cbor_head(MAJOR_UNSIGNED, v)),
        v <= bound,
    ensures
        cbor_uint_at(buf, pos) == Some((v, pos + cbor_head(MAJOR_UNSIGNED, v).len())),
        parse_uint_max(buf, pos, bound) == Some((v, pos + cbor_head(MAJOR_UNSIGNED, v).len())),
{
    lemma_head_at(buf, pos, MAJOR_UNSIGNED, v);
}

pub proof fn lemma_parse_array(buf: Seq<u8>, pos: int, n: u64)
    requires
        placed(buf, pos, cbor_head(MAJOR_ARRAY, n)),
    ensures
        parse_array_n(buf, pos, n) == Some(pos + cbor_head(MAJOR_ARRAY, n).len()),
{
    lemma_head_at(buf, pos, MAJOR_ARRAY, n);
    let h = cbor_head(MAJOR_ARRAY, n);
    assert(buf[pos] == h[0]);
    assert(buf[pos] != 0x9f);
}

pub proof fn lemma_parse_bytes(buf: Seq<u8>, pos: int, b: Seq<u8>)
    requires
        placed(buf, pos, cbor_bytes(b)),
        b.len() <= 0xffff_ffff,
    ensures
        parse_bytes_n(buf, pos, b.len()) == Some((b, pos + cbor_bytes(b).len())),
{
    let h = cbor_head(MAJOR_BYTES, b.len() as u64);
    lemma_placed_split(buf, pos, h, b);
    lemma_head_at(buf, pos, MAJOR_BYTES, b.len() as u64);
}

pub proof fn lemma_parse_text(buf: Seq<u8>, pos: int, s: Seq<char>, maximum: int)
    requires
        placed(buf, pos, cbor_text(s)),
        text_ok(s, maximum),
        maximum <= 0xffff_ffff,
    ensures
        parse_text(buf, pos, maximum) == Some((s, pos + cbor_text(s).len())),
{
    let h = cbor_head(MAJOR_TEXT, encode_utf8(s).len() as u64);
    lemma_placed_split(buf, pos, h, encode_utf8(s));
    lemma_head_at(buf, pos, MAJOR_TEXT, encode_utf8(s).len() as u64);
}

pub proof fn lemma_parse_text_allow_controls(buf: Seq<u8>, pos: int, s: Seq<char>, maximum: int)
    requires
        placed(buf, pos, cbor_text(s)),
        text_allow_controls_ok(s, maximum),
        maximum <= 0xffff_ffff,
    ensures
        parse_text_allow_controls(buf, pos, maximum) == Some((s, pos + cbor_text(s).len())),
{
    let h = cbor_head(MAJOR_TEXT, encode_utf8(s).len() as u64);
    lemma_placed_split(buf, pos, h, encode_utf8(s));
    lemma_head_at(buf, pos, MAJOR_TEXT, encode_utf8(s).len() as u64);
}


/// `s` opens `buf`.
pub open spec fn starts_with(buf: Seq<u8>, s: Seq<u8>) -> bool {
    s.len() <= buf.len() && buf.subrange(0, s.len() as int) == s
}

/// A prefix `a + b` of `buf` leaves `a` as a prefix and `b` right after it.
pub proof fn lemma_starts_with_split(buf: Seq<u8>, a: Seq<u8>, b: Seq<u8>)
    requires
        starts_with(buf, a + b),
    ensures
        starts_with(buf, a),
        placed(buf, a.len() as int, b),
{
    lemma_placed_split(buf, 0, a, b);
}

/// The first byte of a head carries its major type.
pub proof fn lemma_head_first_byte(major: u8, v: u64)
    requires
        major < 8,
    ensures
        major * 32 <= cbor_head(major, v)[0] < major * 32 + 28,
{
}
} // verus!
