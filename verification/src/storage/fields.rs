//! Reading and writing single fields: fixed-width values, identifiers, and
//! length-prefixed byte strings.
//!
//! The specifications speak of `input`, the bytes that are still to be read;
//! the executable readers take the whole buffer and a position in it.

use vstd::prelude::*;
use vstd::slice::slice_subrange;
use vstd::slice::slice_to_vec;
use vstd::utf8::{decode_utf8, encode_utf8, valid_utf8};
use crate::error::{Error, Invalid};
use crate::platform::string_from_utf8;
use crate::storage::layout::LengthType;
use crate::storage::wire::{
    le_bytes, le_value, lemma_le_value_bound, lemma_pow256_values, pow256, push_be, push_le,
    read_be, read_le,
};
use crate::util::uuid::Uuid;

verus! {

/// The first `n` bytes of the input, if it has that many.
pub open spec fn take_bytes(input: Seq<u8>, n: nat) -> Result<Seq<u8>, Error> {
    if input.len() < n {
        Err(Error::UnexpectedEof)
    } else {
        Ok(input.take(n as int))
    }
}

/// A length of the given width, then that many bytes; refused where the
/// length does not fit the width.
pub open spec fn lp_encode(payload: Seq<u8>, width: LengthType) -> Result<Seq<u8>, Error> {
    if payload.len() < pow256(width.spec_byte_len()) {
        Ok(le_bytes(payload.len(), width.spec_byte_len()) + payload)
    } else {
        Err(Error::InvalidData(Invalid::TooLong))
    }
}

/// The payload of a length-prefixed field at the head of the input, and the
/// number of bytes that the field occupies.
pub open spec fn lp_decode(input: Seq<u8>, width: LengthType) -> Result<(Seq<u8>, nat), Error> {
    let w = width.spec_byte_len();
    if input.len() < w {
        Err(Error::UnexpectedEof)
    } else {
        let n = le_value(input.take(w as int));
        if input.len() < w + n {
            Err(Error::UnexpectedEof)
        } else {
            Ok((input.subrange(w as int, (w + n) as int), w + n))
        }
    }
}

/// The text that bytes stand for: their characters where they are well-formed
/// UTF-8, the empty text where they are not.
pub open spec fn text_of(bytes: Seq<u8>) -> Seq<char> {
    if valid_utf8(bytes) {
        decode_utf8(bytes)
    } else {
        Seq::empty()
    }
}

/// A signed 64-bit number as the unsigned number with the same bits.
pub open spec fn i64_bits(x: i64) -> nat {
    if x >= 0 {
        x as nat
    } else {
        (x + 0x1_0000_0000_0000_0000) as nat
    }
}

/// The signed 64-bit number with the bits of an unsigned one.
pub open spec fn i64_of_bits(bits: nat) -> i64 {
    if bits < 0x8000_0000_0000_0000 {
        bits as i64
    } else {
        (bits - 0x1_0000_0000_0000_0000) as i64
    }
}

/// What is written is read back: a length-prefixed field followed by anything.
pub proof fn lemma_lp_roundtrip(payload: Seq<u8>, width: LengthType, rest: Seq<u8>)
    requires
        lp_encode(payload, width) is Ok,
    ensures
        lp_decode(lp_encode(payload, width)->Ok_0 + rest, width) == Ok::<(Seq<u8>, nat), Error>(
            (payload, lp_encode(payload, width)->Ok_0.len()),
        ),
{
    let w = width.spec_byte_len();
    let prefix = le_bytes(payload.len(), w);
    let input = prefix + payload + rest;
    crate::storage::wire::lemma_le_bytes_len(payload.len(), w);
    crate::storage::wire::lemma_le_roundtrip(payload.len(), w);
    assert(input.take(w as int) =~= prefix);
    assert(input.subrange(w as int, (w + payload.len()) as int) =~= payload);
}

/// Text survives being written as bytes and read back.
pub proof fn lemma_text_roundtrip(text: Seq<char>)
    ensures
        text_of(encode_utf8(text)) == text,
{
    vstd::utf8::encode_utf8_valid_utf8(text);
    vstd::utf8::encode_utf8_decode_utf8(text);
}

/// A signed number survives being written as bits and read back.
pub proof fn lemma_i64_roundtrip(x: i64)
    ensures
        i64_bits(x) < 0x1_0000_0000_0000_0000,
        i64_of_bits(i64_bits(x)) == x,
{
}

/// Whether two strings hold the same characters.
pub fn str_eq(a: &str, b: &str) -> (same: bool)
    ensures
        same == (a@ == b@),
{
    let x = a.as_bytes();
    let y = b.as_bytes();
    proof {
        vstd::utf8::encode_utf8_decode_utf8(a@);
        vstd::utf8::encode_utf8_decode_utf8(b@);
    }
    if x.len() != y.len() {
        return false;
    }
    let mut i: usize = 0;
    while i < x.len()
        invariant
            i <= x@.len() == y@.len(),
            x@ == encode_utf8(a@),
            y@ == encode_utf8(b@),
            forall|j: int| 0 <= j < i ==> x@[j] == y@[j],
        decreases x@.len() - i,
    {
        if x[i] != y[i] {
            return false;
        }
        i = i + 1;
    }
    proof {
        assert(x@ =~= y@);
    }
    true
}

/// The bits of a signed number.
pub fn i64_to_bits(x: i64) -> (bits: u64)
    ensures
        bits as nat == i64_bits(x),
{
    if x >= 0 {
        x as u64
    } else {
        let shifted: i64 = (x + i64::MAX) + 1;
        (shifted as u64) + 0x8000_0000_0000_0000u64
    }
}

/// The signed number with the given bits.
pub fn i64_from_bits(bits: u64) -> (x: i64)
    ensures
        x == i64_of_bits(bits as nat),
{
    if bits < 0x8000_0000_0000_0000u64 {
        bits as i64
    } else {
        let low: i64 = (bits - 0x8000_0000_0000_0000u64) as i64;
        (low - i64::MAX) - 1
    }
}

/// Reads one byte at `pos`.
pub fn read_u8(data: &[u8], pos: usize) -> (r: Result<u8, Error>)
    requires
        pos <= data@.len(),
    ensures
        match take_bytes(data@.skip(pos as int), 1) {
            Ok(bytes) => r == Ok::<u8, Error>(bytes[0]),
            Err(e) => r == Err::<u8, Error>(e),
        },
{
    if data.len() - pos < 1 {
        return Err(Error::UnexpectedEof);
    }
    Ok(data[pos])
}

/// Reads `n` bytes at `pos` as a little-endian number.
pub fn read_number(data: &[u8], pos: usize, n: usize) -> (r: Result<u64, Error>)
    requires
        pos <= data@.len(),
        n <= 8,
    ensures
        match take_bytes(data@.skip(pos as int), n as nat) {
            Ok(bytes) => r is Ok && r->Ok_0 as nat == le_value(bytes),
            Err(e) => r == Err::<u64, Error>(e),
        },
{
    if data.len() - pos < n {
        return Err(Error::UnexpectedEof);
    }
    let v = read_le(data, pos, n);
    proof {
        assert(data@.skip(pos as int).take(n as int) =~= data@.subrange(pos as int, pos + n));
    }
    Ok(v)
}

/// Reads the sixteen bytes of an identifier at `pos`.
pub fn read_uuid(data: &[u8], pos: usize) -> (r: Result<Uuid, Error>)
    requires
        pos <= data@.len(),
    ensures
        match take_bytes(data@.skip(pos as int), 16) {
            Ok(bytes) => r == Ok::<Uuid, Error>(Uuid::spec_from_bytes(bytes)),
            Err(e) => r == Err::<Uuid, Error>(e),
        },
{
    if data.len() - pos < 16 {
        return Err(Error::UnexpectedEof);
    }
    let value = read_be(data, pos, 16);
    proof {
        assert(data@.skip(pos as int).take(16) =~= data@.subrange(pos as int, pos + 16));
    }
    Ok(Uuid { value })
}

/// Reads a length-prefixed field at `pos`: its payload and the position after
/// it.
pub fn read_length_prefixed_bytes(data: &[u8], pos: usize, length_type: &LengthType) -> (r: Result<
    (Vec<u8>, usize),
    Error,
>)
    requires
        pos <= data@.len(),
    ensures
        match lp_decode(data@.skip(pos as int), *length_type) {
            Ok((payload, used)) => r is Ok && r->Ok_0.0@ == payload && r->Ok_0.1 == pos + used,
            Err(e) => r == Err::<(Vec<u8>, usize), Error>(e),
        },
{
    let w = length_type.byte_len();
    if data.len() - pos < w {
        return Err(Error::UnexpectedEof);
    }
    let n64 = read_le(data, pos, w);
    proof {
        assert(data@.skip(pos as int).take(w as int) =~= data@.subrange(pos as int, pos + w));
        lemma_le_value_bound(data@.subrange(pos as int, pos + w));
        lemma_pow256_values();
    }
    let room: usize = data.len() - pos - w;
    if n64 > room as u64 {
        return Err(Error::UnexpectedEof);
    }
    let n: usize = n64 as usize;
    let start: usize = pos + w;
    let payload = slice_to_vec(slice_subrange(data, start, start + n));
    proof {
        assert(data@.skip(pos as int).subrange(w as int, w + n) =~= data@.subrange(
            start as int,
            start + n,
        ));
    }
    Ok((payload, start + n))
}

/// Reads a length-prefixed string at `pos`: the text and the position after
/// it. Bytes that are not UTF-8 read as the empty string.
pub fn read_length_prefixed_string(data: &[u8], pos: usize, length_type: &LengthType) -> (r: Result<
    (String, usize),
    Error,
>)
    requires
        pos <= data@.len(),
    ensures
        match lp_decode(data@.skip(pos as int), *length_type) {
            Ok((payload, used)) => r is Ok && r->Ok_0.0@ == text_of(payload) && r->Ok_0.1 == pos
                + used,
            Err(e) => r == Err::<(String, usize), Error>(e),
        },
{
    match read_length_prefixed_bytes(data, pos, length_type) {
        Ok((payload, end)) => {
            match string_from_utf8(payload) {
                Some(text) => Ok((text, end)),
                None => Ok((String::new(), end)),
            }
        },
        Err(e) => Err(e),
    }
}

/// Appends a length-prefixed field, or refuses and leaves the writer as it
/// was where the length does not fit the prefix.
pub fn write_length_prefixed_field(writer: &mut Vec<u8>, bytes: &[u8], length_type: &LengthType) -> (r:
    Result<(), Error>)
    ensures
        match lp_encode(bytes@, *length_type) {
            Ok(field) => r is Ok && final(writer)@ == old(writer)@ + field,
            Err(e) => r == Err::<(), Error>(e) && final(writer)@ == old(writer)@,
        },
{
    let len = bytes.len();
    proof {
        lemma_pow256_values();
    }
    let fits: bool = match length_type {
        LengthType::U8 => len <= 0xff,
        LengthType::U16 => len <= 0xffff,
        LengthType::U32 => len as u64 <= 0xffff_ffffu64,
    };
    if !fits {
        return Err(Error::InvalidData(Invalid::TooLong));
    }
    push_le(writer, len as u64, length_type.byte_len());
    writer.extend_from_slice(bytes);
    proof {
        assert(writer@ =~= old(writer)@ + (le_bytes(len as nat, length_type.spec_byte_len())
            + bytes@));
    }
    Ok(())
}

/// Appends the sixteen bytes of an identifier.
pub fn write_uuid(writer: &mut Vec<u8>, id: &Uuid)
    ensures
        final(writer)@ == old(writer)@ + id.spec_bytes(),
{
    push_be(writer, id.value, 16);
}

/// Appends a signed number as eight little-endian bytes.
pub fn write_i64(writer: &mut Vec<u8>, x: i64)
    ensures
        final(writer)@ == old(writer)@ + le_bytes(i64_bits(x), 8),
{
    push_le(writer, i64_to_bits(x), 8);
}

/// Appends an unsigned number as eight little-endian bytes.
pub fn write_u64(writer: &mut Vec<u8>, x: u64)
    ensures
        final(writer)@ == old(writer)@ + le_bytes(x as nat, 8),
{
    push_le(writer, x, 8);
}

} // verus!
