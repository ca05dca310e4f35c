//! Compact JSON text, byte for byte as `serde_json::to_vec` writes it for
//! the record types: strings escaped byte by byte, integers in decimal,
//! objects with their members in declaration order and no whitespace.

use vstd::prelude::*;
use vstd::utf8::*;
use crate::text::push_char;

verus! {

pub const QUOTE: u8 = 0x22;
pub const BACKSLASH: u8 = 0x5c;
pub const COLON: u8 = 0x3a;
pub const COMMA: u8 = 0x2c;
pub const OPEN_BRACE: u8 = 0x7b;
pub const CLOSE_BRACE: u8 = 0x7d;

/// The lowercase hexadecimal digit of `v` (below 16).
pub open spec fn hex_digit(v: int) -> u8 {
    if v < 10 {
        (0x30 + v) as u8
    } else {
        (0x61 + v - 10) as u8
    }
}

/// How one byte of a string's UTF-8 stands inside the quotes.
pub open spec fn json_escape_byte(b: u8) -> Seq<u8> {
    if b == QUOTE {
        seq![BACKSLASH, QUOTE]
    } else if b == BACKSLASH {
        seq![BACKSLASH, BACKSLASH]
    } else if b == 0x08 {
        seq![BACKSLASH, 0x62u8]
    } else if b == 0x09 {
        seq![BACKSLASH, 0x74u8]
    } else if b == 0x0a {
        seq![BACKSLASH, 0x6eu8]
    } else if b == 0x0c {
        seq![BACKSLASH, 0x66u8]
    } else if b == 0x0d {
        seq![BACKSLASH, 0x72u8]
    } else if b < 0x20 {
        seq![BACKSLASH, 0x75u8, 0x30u8, 0x30u8, hex_digit((b / 16) as int), hex_digit((b % 16) as int)]
    } else {
        seq![b]
    }
}

/// The escaped form of the bytes `b`.
pub open spec fn json_escape(b: Seq<u8>) -> Seq<u8>
    decreases b.len(),
{
    if b.len() == 0 {
        Seq::empty()
    } else {
        json_escape(b.drop_last()) + json_escape_byte(b.last())
    }
}

/// A JSON string.
pub open spec fn json_str(s: Seq<char>) -> Seq<u8> {
    seq![QUOTE] + json_escape(encode_utf8(s)) + seq![QUOTE]
}

/// The decimal digits of `n`.
pub open spec fn json_decimal(n: nat) -> Seq<u8>
    decreases n,
{
    if n < 10 {
        seq![(0x30 + n) as u8]
    } else {
        json_decimal(n / 10) + seq![(0x30 + n % 10) as u8]
    }
}

/// `true` or `false`.
pub open spec fn json_bool(b: bool) -> Seq<u8> {
    if b {
        seq![0x74u8, 0x72u8, 0x75u8, 0x65u8]
    } else {
        seq![0x66u8, 0x61u8, 0x6cu8, 0x73u8, 0x65u8]
    }
}

/// `null`.
pub open spec fn json_null() -> Seq<u8> {
    seq![0x6eu8, 0x75u8, 0x6cu8, 0x6cu8]
}

/// An optional string: the string or `null`.
pub open spec fn json_opt_str(s: Option<Seq<char>>) -> Seq<u8> {
    match s {
        Some(v) => json_str(v),
        None => json_null(),
    }
}

/// An optional integer: its digits or `null`.
pub open spec fn json_opt_decimal(n: Option<u64>) -> Seq<u8> {
    match n {
        Some(v) => json_decimal(v as nat),
        None => json_null(),
    }
}

/// `"key":`, preceded by a comma unless it opens the object.
pub open spec fn json_key(first: bool, key: Seq<char>) -> Seq<u8> {
    (if first {
        seq![OPEN_BRACE]
    } else {
        seq![COMMA]
    }) + json_str(key) + seq![COLON]
}

pub fn push_byte(out: &mut Vec<u8>, b: u8)
    ensures
        final(out)@ == old(out)@ + seq![b],
{
    out.push(b);
    assert(out@ =~= old(out)@ + seq![b]);
}

fn hex_digit_exec(v: u8) -> (r: u8)
    requires
        v < 16,
    ensures
        r == hex_digit(v as int),
{
    if v < 10 {
        0x30 + v
    } else {
        0x61 + v - 10
    }
}

fn write_escaped_byte(out: &mut Vec<u8>, b: u8)
    ensures
        final(out)@ == old(out)@ + json_escape_byte(b),
{
    if b == QUOTE || b == BACKSLASH {
        push_byte(out, BACKSLASH);
        push_byte(out, b);
    } else if b == 0x08 {
        push_byte(out, BACKSLASH);
        push_byte(out, 0x62);
    } else if b == 0x09 {
        push_byte(out, BACKSLASH);
        push_byte(out, 0x74);
    } else if b == 0x0a {
        push_byte(out, BACKSLASH);
        push_byte(out, 0x6e);
    } else if b == 0x0c {
        push_byte(out, BACKSLASH);
        push_byte(out, 0x66);
    } else if b == 0x0d {
        push_byte(out, BACKSLASH);
        push_byte(out, 0x72);
    } else if b < 0x20 {
        push_byte(out, BACKSLASH);
        push_byte(out, 0x75);
        push_byte(out, 0x30);
        push_byte(out, 0x30);
        let hi = hex_digit_exec(b / 16);
        let lo = hex_digit_exec(b % 16);
        push_byte(out, hi);
        push_byte(out, lo);
    } else {
        push_byte(out, b);
    }
    assert(out@ =~= old(out)@ + json_escape_byte(b));
}

/// Writes `s` as a JSON string.
pub fn write_json_str(out: &mut Vec<u8>, s: &str)
    ensures
        final(out)@ == old(out)@ + json_str(s@),
{
    let bytes = s.as_bytes();
    push_byte(out, QUOTE);
    let ghost start = out@;
    let mut i: usize = 0;
    while i < bytes.len()
        invariant
            i <= bytes@.len(),
            bytes@ == encode_utf8(s@),
            out@ == start + json_escape(bytes@.subrange(0, i as int)),
        decreases bytes@.len() - i,
    {
        write_escaped_byte(out, bytes[i]);
        assert(bytes@.subrange(0, i + 1).drop_last() =~= bytes@.subrange(0, i as int));
        assert(out@ =~= start + json_escape(bytes@.subrange(0, i + 1)));
        i = i + 1;
    }
    assert(bytes@.subrange(0, bytes@.len() as int) =~= bytes@);
    push_byte(out, QUOTE);
    assert(out@ =~= old(out)@ + json_str(s@));
}

/// Writes `n` in decimal.
pub fn write_json_decimal(out: &mut Vec<u8>, n: u64)
    ensures
        final(out)@ == old(out)@ + json_decimal(n as nat),
    decreases n,
{
    if n >= 10 {
        write_json_decimal(out, n / 10);
    }
    push_byte(out, 0x30 + (n % 10) as u8);
    assert(out@ =~= old(out)@ + json_decimal(n as nat));
}

/// Writes `true` or `false`.
pub fn write_json_bool(out: &mut Vec<u8>, b: bool)
    ensures
        final(out)@ == old(out)@ + json_bool(b),
{
    if b {
        push_byte(out, 0x74);
        push_byte(out, 0x72);
        push_byte(out, 0x75);
        push_byte(out, 0x65);
    } else {
        push_byte(out, 0x66);
        push_byte(out, 0x61);
        push_byte(out, 0x6c);
        push_byte(out, 0x73);
        push_byte(out, 0x65);
    }
    assert(out@ =~= old(out)@ + json_bool(b));
}

/// Writes `null`.
pub fn write_json_null(out: &mut Vec<u8>)
    ensures
        final(out)@ == old(out)@ + json_null(),
{
    push_byte(out, 0x6e);
    push_byte(out, 0x75);
    push_byte(out, 0x6c);
    push_byte(out, 0x6c);
    assert(out@ =~= old(out)@ + json_null());
}

/// Writes an optional string.
pub fn write_json_opt_str(out: &mut Vec<u8>, s: &Option<String>)
    ensures
        final(out)@ == old(out)@ + json_opt_str(
            match s {
                Some(v) => Some(v@),
                None => None,
            },
        ),
{
    match s {
        Some(v) => write_json_str(out, v.as_str()),
        None => write_json_null(out),
    }
}

/// Writes an optional integer.
pub fn write_json_opt_decimal(out: &mut Vec<u8>, n: Option<u64>)
    ensures
        final(out)@ == old(out)@ + json_opt_decimal(n),
{
    match n {
        Some(v) => write_json_decimal(out, v),
        None => write_json_null(out),
    }
}

/// Writes the opening brace or a comma, then `"key":`.
pub fn write_json_key(out: &mut Vec<u8>, first: bool, key: &str)
    ensures
        final(out)@ == old(out)@ + json_key(first, key@),
{
    if first {
        push_byte(out, OPEN_BRACE);
    } else {
        push_byte(out, COMMA);
    }
    write_json_str(out, key);
    push_byte(out, COLON);
    assert(out@ =~= old(out)@ + json_key(first, key@));
}

/// Writes the closing brace.
pub fn write_json_close(out: &mut Vec<u8>)
    ensures
        final(out)@ == old(out)@ + seq![CLOSE_BRACE],
{
    push_byte(out, CLOSE_BRACE);
}


// ---------------------------------------------------------------------
// The same text built as characters.
// ---------------------------------------------------------------------

/// The lowercase hexadecimal digit of `v` (below 16), as a character.
pub open spec fn hex_digit_char(v: int) -> char {
    if v < 10 {
        (0x30 + v) as char
    } else {
        (0x61 + v - 10) as char
    }
}

/// How one character stands inside a JSON string's quotes.
pub open spec fn json_escape_char(c: char) -> Seq<char> {
    if c == '"' {
        seq!['\\', '"']
    } else if c == '\\' {
        seq!['\\', '\\']
    } else if c == '\u{8}' {
        seq!['\\', 'b']
    } else if c == '\t' {
        seq!['\\', 't']
    } else if c == '\n' {
        seq!['\\', 'n']
    } else if c == '\u{c}' {
        seq!['\\', 'f']
    } else if c == '\r' {
        seq!['\\', 'r']
    } else if (c as u32) < 0x20 {
        seq![
            '\\',
            'u',
            '0',
            '0',
            hex_digit_char(((c as u32) / 16) as int),
            hex_digit_char(((c as u32) % 16) as int),
        ]
    } else {
        seq![c]
    }
}

/// The escaped form of the characters `s`.
pub open spec fn json_escape_text(s: Seq<char>) -> Seq<char>
    decreases s.len(),
{
    if s.len() == 0 {
        Seq::empty()
    } else {
        json_escape_text(s.drop_last()) + json_escape_char(s.last())
    }
}

/// A JSON string, as characters.
pub open spec fn json_text_str(s: Seq<char>) -> Seq<char> {
    seq!['"'] + json_escape_text(s) + seq!['"']
}

fn hex_digit_char_exec(v: u32) -> (r: char)
    requires
        v < 16,
    ensures
        r == hex_digit_char(v as int),
{
    let b: u8 = if v < 10 {
        0x30 + v as u8
    } else {
        0x61 + (v as u8) - 10
    };
    b as char
}

/// Appends `s` as a JSON string.
pub fn push_json_text_str(out: &mut String, s: &str)
    ensures
        final(out)@ == old(out)@ + json_text_str(s@),
{
    push_char(out, '"');
    let ghost start = out@;
    for c in it: s.chars()
        invariant
            it.seq() == s@,
            out@ == start + json_escape_text(s@.subrange(0, it.index() as int)),
    {
        let ghost before = out@;
        let code = c as u32;
        if c == '"' || c == '\\' {
            push_char(out, '\\');
            push_char(out, c);
        } else if c == '\u{8}' {
            push_char(out, '\\');
            push_char(out, 'b');
        } else if c == '\t' {
            push_char(out, '\\');
            push_char(out, 't');
        } else if c == '\n' {
            push_char(out, '\\');
            push_char(out, 'n');
        } else if c == '\u{c}' {
            push_char(out, '\\');
            push_char(out, 'f');
        } else if c == '\r' {
            push_char(out, '\\');
            push_char(out, 'r');
        } else if code < 0x20 {
            push_char(out, '\\');
            push_char(out, 'u');
            push_char(out, '0');
            push_char(out, '0');
            let hi = hex_digit_char_exec(code / 16);
            let lo = hex_digit_char_exec(code % 16);
            push_char(out, hi);
            push_char(out, lo);
        } else {
            push_char(out, c);
        }
        proof {
            let i = it.index();
            let t = s@.subrange(0, i + 1);
            assert(t.drop_last() =~= s@.subrange(0, i as int));
            assert(out@ =~= before + json_escape_char(c));
            assert(out@ =~= start + json_escape_text(t));
        }
    }
    proof {
        assert(s@.subrange(0, s@.len() as int) =~= s@);
    }
    push_char(out, '"');
    assert(out@ =~= old(out)@ + json_text_str(s@));
}

} // verus!
