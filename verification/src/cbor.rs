//! The CBOR items that the wire messages are built from.
//!
//! Items are written and read by `minicbor`; the functions here state, as
//! byte sequences, exactly what each of its calls writes and accepts, so that
//! the message codecs built on top of them can be proved to round-trip.

use vstd::prelude::*;
use vstd::utf8::*;
use minicbor::{Decoder, Encoder};

verus! {

/// CBOR major type of unsigned integers.
pub const MAJOR_UNSIGNED: u8 = 0;
/// CBOR major type of byte strings.
pub const MAJOR_BYTES: u8 = 2;
/// CBOR major type of text strings.
pub const MAJOR_TEXT: u8 = 3;
/// CBOR major type of arrays.
pub const MAJOR_ARRAY: u8 = 4;
/// The single byte of CBOR `null`.
pub const CBOR_NULL: u8 = 0xf6;

/// `256` to the power `n`.
pub open spec fn pow256(n: nat) -> int
    decreases n,
{
    if n == 0 {
        1
    } else {
        256 * pow256((n - 1) as nat)
    }
}

/// The `n` low-order bytes of `v`, most significant first.
pub open spec fn be_bytes(v: int, n: nat) -> Seq<u8>
    decreases n,
{
    if n == 0 {
        Seq::empty()
    } else {
        be_bytes(v / 256, (n - 1) as nat).push((v % 256) as u8)
    }
}

/// The number that the bytes `s` denote, most significant first.
pub open spec fn be_value(s: Seq<u8>) -> int
    decreases s.len(),
{
    if s.len() == 0 {
        0
    } else {
        be_value(s.drop_last()) * 256 + s.last()
    }
}

/// The head of a CBOR item: major type `major` with argument `v`, in the
/// shortest form.
pub open spec fn cbor_head(major: u8, v: u64) -> Seq<u8> {
    let m = (major as int) * 32;
    if v < 24 {
        seq![(m + v) as u8]
    } else if v < 0x100 {
        seq![(m + 24) as u8, v as u8]
    } else if v < 0x1_0000 {
        seq![(m + 25) as u8] + be_bytes(v as int, 2)
    } else if v < 0x1_0000_0000 {
        seq![(m + 26) as u8] + be_bytes(v as int, 4)
    } else {
        seq![(m + 27) as u8] + be_bytes(v as int, 8)
    }
}

/// The argument that follows an initial byte whose low five bits are
/// `info`, read from `start`: the value and the position after it.
pub open spec fn cbor_arg(buf: Seq<u8>, start: int, info: int) -> Option<(u64, int)> {
    let width: int = if info == 24 {
        1
    } else if info == 25 {
        2
    } else if info == 26 {
        4
    } else {
        8
    };
    if 0 <= info < 24 {
        Some((info as u64, start))
    } else if 24 <= info <= 27 {
        if 0 <= start && start + width <= buf.len() {
            Some((be_value(buf.subrange(start, start + width)) as u64, start + width))
        } else {
            None
        }
    } else {
        None
    }
}

/// The head at `pos`: major type, argument, and the position after it.
pub open spec fn cbor_head_at(buf: Seq<u8>, pos: int) -> Option<(u8, u64, int)> {
    if 0 <= pos < buf.len() {
        let b = buf[pos];
        match cbor_arg(buf, pos + 1, (b % 32) as int) {
            Some((v, end)) => Some(((b / 32) as u8, v, end)),
            None => None,
        }
    } else {
        None
    }
}

/// An unsigned integer item at `pos`: its value and the position after it.
pub open spec fn cbor_uint_at(buf: Seq<u8>, pos: int) -> Option<(u64, int)> {
    match cbor_head_at(buf, pos) {
        Some((major, v, end)) => if major == MAJOR_UNSIGNED {
            Some((v, end))
        } else {
            None
        },
        None => None,
    }
}

/// A definite-length string item of major type `major` at `pos`: the
/// content bytes and the position after them.
pub open spec fn cbor_string_at(buf: Seq<u8>, pos: int, major: u8) -> Option<(Seq<u8>, int)> {
    match cbor_head_at(buf, pos) {
        Some((m, n, end)) => if m == major && end + n <= buf.len() {
            Some((buf.subrange(end, end + n), end + n))
        } else {
            None
        },
        None => None,
    }
}

/// A definite-length array head at `pos`: its length and the position after
/// it. `Some((None, _))` is an array of indefinite length.
pub open spec fn cbor_array_at(buf: Seq<u8>, pos: int) -> Option<(Option<u64>, int)> {
    if 0 <= pos < buf.len() && buf[pos] == 0x9f {
        Some((None, pos + 1))
    } else {
        match cbor_head_at(buf, pos) {
            Some((m, n, end)) => if m == MAJOR_ARRAY {
                Some((Some(n), end))
            } else {
                None
            },
            None => None,
        }
    }
}

/// The bytes of a text item holding `s`.
pub open spec fn cbor_text(s: Seq<char>) -> Seq<u8> {
    cbor_head(MAJOR_TEXT, encode_utf8(s).len() as u64) + encode_utf8(s)
}

/// The bytes of a byte-string item holding `b`.
pub open spec fn cbor_bytes(b: Seq<u8>) -> Seq<u8> {
    cbor_head(MAJOR_BYTES, b.len() as u64) + b
}

pub proof fn lemma_be_roundtrip(v: int, n: nat)
    requires
        0 <= v < pow256(n),
    ensures
        be_bytes(v, n).len() == n,
        be_value(be_bytes(v, n)) == v,
    decreases n,
{
    if n > 0 {
        let q = v / 256;
        let r = v % 256;
        let p = pow256((n - 1) as nat);
        assert(v == 256 * q + r && 0 <= r < 256);
        assert(0 <= q < p) by (nonlinear_arith)
            requires
                v == 256 * q + r,
                0 <= r < 256,
                0 <= v < 256 * p,
        ;
        lemma_be_roundtrip(q, (n - 1) as nat);
        let s = be_bytes(q, (n - 1) as nat);
        assert(be_bytes(v, n) == s.push(r as u8));
        assert(s.push(r as u8).drop_last() =~= s);
    }
}

proof fn lemma_pow256_values()
    ensures
        pow256(1) == 0x100,
        pow256(2) == 0x1_0000,
        pow256(4) == 0x1_0000_0000,
        pow256(8) == 0x1_0000_0000_0000_0000,
{
    reveal_with_fuel(pow256, 9);
}

/// A head written at `pos` is read back there.
pub proof fn lemma_head_at(buf: Seq<u8>, pos: int, major: u8, v: u64)
    requires
        major < 8,
        0 <= pos,
        pos + cbor_head(major, v).len() <= buf.len(),
        buf.subrange(pos, pos + cbor_head(major, v).len()) == cbor_head(major, v),
    ensures
        cbor_head_at(buf, pos) == Some((major, v, pos + cbor_head(major, v).len())),
{
    let h = cbor_head(major, v);
    let m = (major as int) * 32;
    lemma_pow256_values();
    assert(buf[pos] == h[0]);
    if v < 24 {
        assert(h[0] == (m + v) as u8);
        assert((m + v) % 32 == v && (m + v) / 32 == major) by (nonlinear_arith)
            requires
                m == major * 32,
                0 <= v < 24,
        ;
    } else {
        let k: int = if v < 0x100 {
            24
        } else if v < 0x1_0000 {
            25
        } else if v < 0x1_0000_0000 {
            26
        } else {
            27
        };
        let w: nat = if v < 0x100 {
            1
        } else if v < 0x1_0000 {
            2
        } else if v < 0x1_0000_0000 {
            4
        } else {
            8
        };
        assert((m + k) % 32 == k && (m + k) / 32 == major) by (nonlinear_arith)
            requires
                m == major * 32,
                24 <= k <= 27,
        ;
        lemma_be_roundtrip(v as int, w);
        assert(h[0] == (m + k) as u8);
        assert(h == seq![(m + k) as u8] + be_bytes(v as int, w)) by {
            if v < 0x100 {
                reveal_with_fuel(be_bytes, 2);
                assert(be_bytes(v as int, 1) =~= seq![v as u8]);
            }
        }
        assert(buf.subrange(pos + 1, pos + 1 + w) =~= be_bytes(v as int, w)) by {
            assert forall|i: int| 0 <= i < w implies buf.subrange(pos + 1, pos + 1 + w)[i] == be_bytes(
                v as int,
                w,
            )[i] by {
                assert(buf.subrange(pos, pos + h.len())[i + 1] == h[i + 1]);
            }
        }
    }
}

/// Writes the unsigned integer `v` (`Encoder::u64`).
#[verifier::external_body]
pub(crate) fn cbor_write_u64(out: &mut Vec<u8>, v: u64)
    ensures
        final(out)@ == old(out)@ + cbor_head(MAJOR_UNSIGNED, v),
{
    let _ = Encoder::new(out).u64(v);
}

/// Writes a byte-string item holding `bytes` (`Encoder::bytes`).
#[verifier::external_body]
pub(crate) fn cbor_write_bytes(out: &mut Vec<u8>, bytes: &[u8])
    ensures
        final(out)@ == old(out)@ + cbor_bytes(bytes@),
{
    let _ = Encoder::new(out).bytes(bytes);
}

/// Writes a text item holding `text` (`Encoder::str`).
#[verifier::external_body]
pub(crate) fn cbor_write_str(out: &mut Vec<u8>, text: &str)
    ensures
        final(out)@ == old(out)@ + cbor_text(text@),
{
    let _ = Encoder::new(out).str(text);
}

/// Writes the head of a definite-length array of `len` items
/// (`Encoder::array`).
#[verifier::external_body]
pub(crate) fn cbor_write_array(out: &mut Vec<u8>, len: u64)
    ensures
        final(out)@ == old(out)@ + cbor_head(MAJOR_ARRAY, len),
{
    let _ = Encoder::new(out).array(len);
}

/// Writes CBOR `null` (`Encoder::null`).
#[verifier::external_body]
pub(crate) fn cbor_write_null(out: &mut Vec<u8>)
    ensures
        final(out)@ == old(out)@.push(CBOR_NULL),
{
    let _ = Encoder::new(out).null();
}

/// Writes a CBOR boolean (`Encoder::bool`).
#[verifier::external_body]
pub(crate) fn cbor_write_bool(out: &mut Vec<u8>, value: bool)
    ensures
        final(out)@ == old(out)@.push(
            if value {
                0xf5u8
            } else {
                0xf4u8
            },
        ),
{
    let _ = Encoder::new(out).bool(value);
}

/// Reads an unsigned integer item at `pos` (`Decoder::u64`): its value and
/// the position after it, or minicbor's message.
#[verifier::external_body]
pub(crate) fn cbor_read_u64(input: &[u8], pos: usize) -> (r: Result<(u64, usize), String>)
    ensures
        match r {
            Ok((v, end)) => cbor_uint_at(input@, pos as int) == Some((v, end as int)),
            Err(_) => cbor_uint_at(input@, pos as int) is None,
        },
{
    let mut decoder = Decoder::new(input);
    decoder.set_position(pos);
    match decoder.u64() {
        Ok(v) => Ok((v, decoder.position())),
        Err(error) => Err(error.to_string()),
    }
}

/// Reads a definite-length byte string at `pos` (`Decoder::bytes`).
#[verifier::external_body]
pub(crate) fn cbor_read_bytes(input: &[u8], pos: usize) -> (r: Result<(Vec<u8>, usize), String>)
    ensures
        match r {
            Ok((b, end)) => cbor_string_at(input@, pos as int, MAJOR_BYTES) == Some(
                (b@, end as int),
            ),
            Err(_) => cbor_string_at(input@, pos as int, MAJOR_BYTES) is None,
        },
{
    let mut decoder = Decoder::new(input);
    decoder.set_position(pos);
    match decoder.bytes() {
        Ok(bytes) => Ok((bytes.to_vec(), decoder.position())),
        Err(error) => Err(error.to_string()),
    }
}

/// Reads a definite-length text string at `pos` (`Decoder::str`); it must
/// hold valid UTF-8.
#[verifier::external_body]
pub(crate) fn cbor_read_str(input: &[u8], pos: usize) -> (r: Result<(String, usize), String>)
    ensures
        match r {
            Ok((s, end)) => match cbor_string_at(input@, pos as int, MAJOR_TEXT) {
                Some((content, e)) => e == end as int && valid_utf8(content) && s@ == decode_utf8(
                    content,
                ),
                None => false,
            },
            Err(_) => match cbor_string_at(input@, pos as int, MAJOR_TEXT) {
                Some((content, _)) => !valid_utf8(content),
                None => true,
            },
        },
{
    let mut decoder = Decoder::new(input);
    decoder.set_position(pos);
    match decoder.str() {
        Ok(text) => Ok((text.to_owned(), decoder.position())),
        Err(error) => Err(error.to_string()),
    }
}

/// Reads an array head at `pos` (`Decoder::array`): `None` for an array of
/// indefinite length.
#[verifier::external_body]
pub(crate) fn cbor_read_array(input: &[u8], pos: usize) -> (r: Result<(Option<u64>, usize), String>)
    ensures
        match r {
            Ok((n, end)) => cbor_array_at(input@, pos as int) == Some((n, end as int)),
            Err(_) => cbor_array_at(input@, pos as int) is None,
        },
{
    let mut decoder = Decoder::new(input);
    decoder.set_position(pos);
    match decoder.array() {
        Ok(len) => Ok((len, decoder.position())),
        Err(error) => Err(error.to_string()),
    }
}

/// Reads CBOR `null` at `pos` (`Decoder::null`).
#[verifier::external_body]
pub(crate) fn cbor_read_null(input: &[u8], pos: usize) -> (r: Result<usize, String>)
    ensures
        match r {
            Ok(end) => pos < input@.len() && input@[pos as int] == CBOR_NULL && end == pos + 1,
            Err(_) => !(pos < input@.len() && input@[pos as int] == CBOR_NULL),
        },
{
    let mut decoder = Decoder::new(input);
    decoder.set_position(pos);
    match decoder.null() {
        Ok(()) => Ok(decoder.position()),
        Err(error) => Err(error.to_string()),
    }
}

/// Reads a CBOR boolean at `pos` (`Decoder::bool`).
#[verifier::external_body]
pub(crate) fn cbor_read_bool(input: &[u8], pos: usize) -> (r: Result<(bool, usize), String>)
    ensures
        match r {
            Ok((b, end)) => pos < input@.len() && end == pos + 1 && ((input@[pos as int] == 0xf5
                && b) || (input@[pos as int] == 0xf4 && !b)),
            Err(_) => !(pos < input@.len() && (input@[pos as int] == 0xf5 || input@[pos as int]
                == 0xf4)),
        },
{
    let mut decoder = Decoder::new(input);
    decoder.set_position(pos);
    match decoder.bool() {
        Ok(b) => Ok((b, decoder.position())),
        Err(error) => Err(error.to_string()),
    }
}

} // verus!
