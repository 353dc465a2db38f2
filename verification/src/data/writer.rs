//! Writing the wire's scalars and strings to a sink of bytes.

use vstd::prelude::*;
use vstd::utf8::encode_utf8;
use super::DataError;
use super::buffer::push_all;
use super::frame::{encode_packet, frame_encoding};
use super::packet::Packet;
use super::endian::{be_bytes, be_encode};
use super::varint::{encode_varint, varint_encoding};

verus! {

/// Bytes held in memory to which more are added at the end.
pub trait Sink: Sized {
    /// Every byte the sink holds, in the order written.
    spec fn written(&self) -> Seq<u8>;

    /// `self` is `before` with `bytes` added at the end, and differs in nothing else.
    spec fn extended(&self, before: &Self, bytes: Seq<u8>) -> bool;

    /// Adds all of `bytes` at the end.
    fn append(&mut self, bytes: &[u8])
        ensures
            final(self).extended(old(self), bytes@),
            final(self).written() == old(self).written() + bytes@,
    ;
}

/// `after` is `before` once `bytes` were written to it.
pub open spec fn appended<K: Sink>(after: &K, before: &K, bytes: Seq<u8>) -> bool {
    after.extended(before, bytes) && after.written() == before.written() + bytes
}

/// A string on the wire: the count of its UTF-8 bytes as a variable-length
/// integer, then those bytes.
pub open spec fn string_encoding(text: Seq<char>) -> Seq<u8> {
    varint_encoding(encode_utf8(text).len() as i32) + encode_utf8(text)
}

/// Encodes a string for the wire.
pub fn encode_string(value: &str) -> (out: Vec<u8>)
    ensures
        out@ == string_encoding(value@),
{
    let bytes = value.as_bytes();
    let mut out = encode_varint(#[verifier::truncate] (bytes.len() as i32));
    push_all(&mut out, bytes);
    out
}

/// The wire's writes, on any sink of bytes held in memory. Each write adds the
/// value's encoding at the end as one piece; the `Result` is there for callers
/// written against sinks that can fail.
pub trait Writer: Sink {
    /// Writes all of `bytes`.
    fn write_bytes(&mut self, bytes: &[u8]) -> (r: Result<(), DataError>)
        ensures
            r is Ok,
            appended(final(self), old(self), bytes@),
    {
        self.append(bytes);
        Ok(())
    }

    /// Writes one byte.
    fn write_byte(&mut self, value: u8) -> (r: Result<(), DataError>)
        ensures
            r is Ok,
            appended(final(self), old(self), be_bytes(value as nat, 1)),
    {
        self.write_bytes(be_encode(value as u128, 1).as_slice())
    }

    /// Writes one signed byte.
    fn write_signed_byte(&mut self, value: i8) -> (r: Result<(), DataError>)
        ensures
            r is Ok,
            appended(final(self), old(self), be_bytes((value as u8) as nat, 1)),
    {
        self.write_byte(#[verifier::truncate] (value as u8))
    }

    /// Writes a variable-length integer and says how many bytes it took.
    fn write_varint_size(&mut self, value: i32) -> (r: Result<usize, DataError>)
        ensures
            r == Ok::<usize, DataError>(varint_encoding(value).len() as usize),
            1 <= varint_encoding(value).len() <= 5,
            appended(final(self), old(self), varint_encoding(value)),
    {
        let bytes = encode_varint(value);
        match self.write_bytes(bytes.as_slice()) {
            Ok(()) => Ok(bytes.len()),
            Err(e) => Err(e),
        }
    }

    /// Writes a variable-length integer.
    fn write_varint(&mut self, value: i32) -> (r: Result<(), DataError>)
        ensures
            r is Ok,
            appended(final(self), old(self), varint_encoding(value)),
    {
        match self.write_varint_size(value) {
            Ok(_) => Ok(()),
            Err(e) => Err(e),
        }
    }

    /// Writes `packet` as one frame, in one write. Where compression is due
    /// and fails nothing is written.
    fn write_packet(&mut self, packet: Packet, threshold: Option<usize>) -> (r: Result<
        (),
        DataError,
    >)
        ensures
            match frame_encoding(packet@, threshold) {
                Some(frame) => r is Ok && appended(final(self), old(self), frame),
                None => r == Err::<(), DataError>(DataError::ZlibError) && *final(self) == *old(
                    self,
                ),
            },
    {
        match encode_packet(&packet, threshold) {
            Ok(frame) => self.write_bytes(frame.as_slice()),
            Err(e) => Err(e),
        }
    }

    /// Writes an unsigned number in two bytes.
    fn write_short(&mut self, value: u16) -> (r: Result<(), DataError>)
        ensures
            r is Ok,
            appended(final(self), old(self), be_bytes(value as nat, 2)),
    {
        self.write_bytes(be_encode(value as u128, 2).as_slice())
    }

    /// Writes a signed number in two bytes.
    fn write_signed_short(&mut self, value: i16) -> (r: Result<(), DataError>)
        ensures
            r is Ok,
            appended(final(self), old(self), be_bytes((value as u16) as nat, 2)),
    {
        self.write_short(#[verifier::truncate] (value as u16))
    }

    /// Writes an unsigned number in four bytes.
    fn write_int(&mut self, value: u32) -> (r: Result<(), DataError>)
        ensures
            r is Ok,
            appended(final(self), old(self), be_bytes(value as nat, 4)),
    {
        self.write_bytes(be_encode(value as u128, 4).as_slice())
    }

    /// Writes a signed number in four bytes.
    fn write_signed_int(&mut self, value: i32) -> (r: Result<(), DataError>)
        ensures
            r is Ok,
            appended(final(self), old(self), be_bytes((value as u32) as nat, 4)),
    {
        self.write_int(#[verifier::truncate] (value as u32))
    }

    /// Writes an unsigned number in eight bytes.
    fn write_long(&mut self, value: u64) -> (r: Result<(), DataError>)
        ensures
            r is Ok,
            appended(final(self), old(self), be_bytes(value as nat, 8)),
    {
        self.write_bytes(be_encode(value as u128, 8).as_slice())
    }

    /// Writes a signed number in eight bytes.
    fn write_signed_long(&mut self, value: i64) -> (r: Result<(), DataError>)
        ensures
            r is Ok,
            appended(final(self), old(self), be_bytes((value as u64) as nat, 8)),
    {
        self.write_long(#[verifier::truncate] (value as u64))
    }

    /// Writes a string: its length in bytes, then its UTF-8 bytes.
    fn write_string(&mut self, value: &str) -> (r: Result<(), DataError>)
        ensures
            r is Ok,
            appended(final(self), old(self), string_encoding(value@)),
    {
        self.write_bytes(encode_string(value).as_slice())
    }

    /// Writes a 128-bit identity in sixteen bytes.
    fn write_uuid(&mut self, value: u128) -> (r: Result<(), DataError>)
        ensures
            r is Ok,
            appended(final(self), old(self), be_bytes(value as nat, 16)),
    {
        self.write_bytes(be_encode(value, 16).as_slice())
    }
}

} // verus!
