//! What is written is read back: the laws that tie the wire's encodings to
//! its decodings.

use vstd::prelude::*;
use vstd::utf8::{encode_utf8, encode_utf8_decode_utf8, encode_utf8_valid_utf8};
use super::DataError;
use super::endian::{be_bytes, lemma_be_roundtrip, lemma_pow256_widths, pow256};
use super::reader::{
    byte_decoding, int_decoding, long_decoding, scalar_decoding, short_decoding,
    signed_byte_decoding, signed_int_decoding, signed_long_decoding, signed_short_decoding,
    string_decoding, uuid_decoding,
};
use super::varint::{lemma_varint_roundtrip, varint_encoding};
use super::writer::string_encoding;

verus! {

/// A number written in `width` bytes is read back from them, whatever bytes
/// follow, where `width` bytes can hold it.
pub proof fn lemma_scalar_roundtrip(value: nat, width: nat, rest: Seq<u8>)
    requires
        value < pow256(width),
    ensures
        scalar_decoding(be_bytes(value, width) + rest, width) == Ok::<(nat, nat), DataError>(
            (value, width),
        ),
        be_bytes(value, width).len() == width,
{
    lemma_be_roundtrip(value, width);
    assert((be_bytes(value, width) + rest).take(width as int) =~= be_bytes(value, width));
}

/// Every unsigned value of the wire's widths is read back as it was written.
pub proof fn lemma_unsigned_roundtrip(a: u8, b: u16, c: u32, d: u64, e: u128, rest: Seq<u8>)
    ensures
        byte_decoding(be_bytes(a as nat, 1) + rest) == Ok::<(u8, nat), DataError>((a, 1)),
        short_decoding(be_bytes(b as nat, 2) + rest) == Ok::<(u16, nat), DataError>((b, 2)),
        int_decoding(be_bytes(c as nat, 4) + rest) == Ok::<(u32, nat), DataError>((c, 4)),
        long_decoding(be_bytes(d as nat, 8) + rest) == Ok::<(u64, nat), DataError>((d, 8)),
        uuid_decoding(be_bytes(e as nat, 16) + rest) == Ok::<(u128, nat), DataError>((e, 16)),
{
    lemma_pow256_widths();
    lemma_scalar_roundtrip(a as nat, 1, rest);
    lemma_scalar_roundtrip(b as nat, 2, rest);
    lemma_scalar_roundtrip(c as nat, 4, rest);
    lemma_scalar_roundtrip(d as nat, 8, rest);
    lemma_scalar_roundtrip(e as nat, 16, rest);
}

/// Every signed value of the wire's widths is read back as it was written.
pub proof fn lemma_signed_roundtrip(a: i8, b: i16, c: i32, d: i64, rest: Seq<u8>)
    ensures
        signed_byte_decoding(be_bytes((a as u8) as nat, 1) + rest) == Ok::<(i8, nat), DataError>(
            (a, 1),
        ),
        signed_short_decoding(be_bytes((b as u16) as nat, 2) + rest) == Ok::<
            (i16, nat),
            DataError,
        >((b, 2)),
        signed_int_decoding(be_bytes((c as u32) as nat, 4) + rest) == Ok::<(i32, nat), DataError>(
            (c, 4),
        ),
        signed_long_decoding(be_bytes((d as u64) as nat, 8) + rest) == Ok::<
            (i64, nat),
            DataError,
        >((d, 8)),
{
    lemma_unsigned_roundtrip(a as u8, b as u16, c as u32, d as u64, 0, rest);
    assert(((a as u8) as i8) == a && ((b as u16) as i16) == b && ((c as u32) as i32) == c && ((d
        as u64) as i64) == d) by (bit_vector);
}

/// Every text is read back as it was written, whatever bytes follow, where
/// the count of its UTF-8 bytes fits the signed 32 bits of its length prefix;
/// the empty text is the single byte `0x00`.
pub proof fn lemma_string_roundtrip(text: Seq<char>, rest: Seq<u8>)
    requires
        encode_utf8(text).len() <= i32::MAX,
    ensures
        string_decoding(string_encoding(text) + rest) == Ok::<(Seq<char>, nat), DataError>(
            (text, string_encoding(text).len()),
        ),
        string_encoding(Seq::<char>::empty()) == seq![0u8],
{
    let body = encode_utf8(text);
    let len = body.len() as i32;
    let prefix = varint_encoding(len);
    lemma_varint_roundtrip(len, body + rest);
    encode_utf8_valid_utf8(text);
    encode_utf8_decode_utf8(text);
    let s = string_encoding(text) + rest;
    assert(s =~= prefix + (body + rest));
    assert(s.subrange(prefix.len() as int, prefix.len() + len) =~= body);
    assert(encode_utf8(Seq::<char>::empty()) =~= Seq::<u8>::empty());
    assert(string_encoding(Seq::<char>::empty()) =~= seq![0u8]);
}

} // verus!
