//! Reading the wire's scalars and strings from a source of bytes.

use vstd::prelude::*;
use vstd::slice::{slice_subrange, slice_to_vec};
use vstd::utf8::{decode_utf8, valid_utf8};
use super::DataError;
use super::frame::{decode_frame, frame_decoding};
use super::packet::Packet;
use super::endian::{be_decode, be_value, lemma_pow256_widths, pow256};
use super::varint::{decode_varint, varint_decoding};

verus! {

/// `std::string::FromUtf8Error`, which `String::from_utf8` reports: carried
/// through opaque.
#[verifier::external_type_specification]
#[verifier::external_body]
pub struct ExFromUtf8Error(std::string::FromUtf8Error);

/// `String::from_utf8` of std: the text that `bytes` encode, given exactly when
/// they are well-formed UTF-8.
#[verifier::external_body]
fn string_from_utf8(bytes: Vec<u8>) -> (r: Result<String, std::string::FromUtf8Error>)
    ensures
        r is Ok <==> valid_utf8(bytes@),
        r matches Ok(text) ==> text@ == decode_utf8(bytes@),
{
    String::from_utf8(bytes)
}

/// The first `size` bytes of `s`, with the count taken.
pub open spec fn bytes_decoding(s: Seq<u8>, size: nat) -> Result<(Seq<u8>, nat), DataError> {
    if size <= s.len() {
        Ok((s.take(size as int), size))
    } else {
        Err(DataError::ReadError)
    }
}

/// The unsigned number in the first `width` bytes of `s`, most significant byte
/// first, with the count taken.
pub open spec fn scalar_decoding(s: Seq<u8>, width: nat) -> Result<(nat, nat), DataError> {
    if width <= s.len() {
        Ok((be_value(s.take(width as int)), width))
    } else {
        Err(DataError::ReadError)
    }
}

/// The byte at the start of `s`.
pub open spec fn byte_decoding(s: Seq<u8>) -> Result<(u8, nat), DataError> {
    match scalar_decoding(s, 1) {
        Ok((v, n)) => Ok((v as u8, n)),
        Err(e) => Err(e),
    }
}

/// The byte at the start of `s`, as a signed number in two's complement.
pub open spec fn signed_byte_decoding(s: Seq<u8>) -> Result<(i8, nat), DataError> {
    match scalar_decoding(s, 1) {
        Ok((v, n)) => Ok(((v as u8) as i8, n)),
        Err(e) => Err(e),
    }
}

/// The unsigned number in the first two bytes of `s`.
pub open spec fn short_decoding(s: Seq<u8>) -> Result<(u16, nat), DataError> {
    match scalar_decoding(s, 2) {
        Ok((v, n)) => Ok((v as u16, n)),
        Err(e) => Err(e),
    }
}

/// The number in the first two bytes of `s`, signed in two's complement.
pub open spec fn signed_short_decoding(s: Seq<u8>) -> Result<(i16, nat), DataError> {
    match scalar_decoding(s, 2) {
        Ok((v, n)) => Ok(((v as u16) as i16, n)),
        Err(e) => Err(e),
    }
}

/// The unsigned number in the first four bytes of `s`.
pub open spec fn int_decoding(s: Seq<u8>) -> Result<(u32, nat), DataError> {
    match scalar_decoding(s, 4) {
        Ok((v, n)) => Ok((v as u32, n)),
        Err(e) => Err(e),
    }
}

/// The number in the first four bytes of `s`, signed in two's complement.
pub open spec fn signed_int_decoding(s: Seq<u8>) -> Result<(i32, nat), DataError> {
    match scalar_decoding(s, 4) {
        Ok((v, n)) => Ok(((v as u32) as i32, n)),
        Err(e) => Err(e),
    }
}

/// The unsigned number in the first eight bytes of `s`.
pub open spec fn long_decoding(s: Seq<u8>) -> Result<(u64, nat), DataError> {
    match scalar_decoding(s, 8) {
        Ok((v, n)) => Ok((v as u64, n)),
        Err(e) => Err(e),
    }
}

/// The number in the first eight bytes of `s`, signed in two's complement.
pub open spec fn signed_long_decoding(s: Seq<u8>) -> Result<(i64, nat), DataError> {
    match scalar_decoding(s, 8) {
        Ok((v, n)) => Ok(((v as u64) as i64, n)),
        Err(e) => Err(e),
    }
}

/// The 128-bit identity in the first sixteen bytes of `s`.
pub open spec fn uuid_decoding(s: Seq<u8>) -> Result<(u128, nat), DataError> {
    match scalar_decoding(s, 16) {
        Ok((v, n)) => Ok((v as u128, n)),
        Err(e) => Err(e),
    }
}

/// The string at the start of `s`: the count of its bytes as a variable-length
/// integer, then that many bytes of UTF-8. `ReadError` where the count is
/// negative or `s` is too short for it, `StringDecodeError` where the bytes are
/// not UTF-8.
pub open spec fn string_decoding(s: Seq<u8>) -> Result<(Seq<char>, nat), DataError> {
    match varint_decoding(s) {
        Err(e) => Err(e),
        Ok((len, n)) => if len < 0 || n + len > s.len() {
            Err(DataError::ReadError)
        } else {
            let body = s.subrange(n as int, n + len);
            if valid_utf8(body) {
                Ok((decode_utf8(body), (n + len) as nat))
            } else {
                Err(DataError::StringDecodeError)
            }
        },
    }
}

/// The variable-length integer at the start of `s`, with the count of its bytes
/// beside its value.
pub open spec fn varint_size_decoding(s: Seq<u8>) -> Result<((i32, usize), nat), DataError> {
    match varint_decoding(s) {
        Ok((v, n)) => Ok(((v, n as usize), n)),
        Err(e) => Err(e),
    }
}

/// Reads the string at the start of `bytes` and says how many bytes it took.
pub fn decode_string(bytes: &[u8]) -> (r: Result<(String, usize), DataError>)
    ensures
        match string_decoding(bytes@) {
            Ok((text, n)) => r matches Ok((t, m)) && t@ == text && m == n,
            Err(e) => r matches Err(f) && f == e,
        },
{
    match decode_varint(bytes) {
        Err(e) => Err(e),
        Ok((len, n)) => {
            if len < 0 || len as usize > bytes.len() - n {
                return Err(DataError::ReadError);
            }
            let end: usize = n + len as usize;
            let body = slice_to_vec(slice_subrange(bytes, n, end));
            match string_from_utf8(body) {
                Ok(text) => Ok((text, end)),
                Err(_) => Err(DataError::StringDecodeError),
            }
        },
    }
}

/// Reads the number in the first `width` bytes of `bytes`.
pub fn decode_scalar(bytes: &[u8], width: usize) -> (r: Result<(u128, usize), DataError>)
    requires
        width <= 16,
    ensures
        match scalar_decoding(bytes@, width as nat) {
            Ok((v, n)) => r == Ok::<(u128, usize), DataError>((v as u128, n as usize)) && v
                < pow256(width as nat),
            Err(e) => r == Err::<(u128, usize), DataError>(e),
        },
{
    if width <= bytes.len() {
        let v: u128 = be_decode(slice_subrange(bytes, 0, width));
        Ok((v, width))
    } else {
        Err(DataError::ReadError)
    }
}

/// How many of `s`'s bytes a move past `n` bytes passes.
pub open spec fn skip_count(s: Seq<u8>, n: nat) -> nat {
    if n <= s.len() {
        n
    } else {
        s.len()
    }
}

/// Bytes held in memory that are taken in order, each once.
pub trait Source: Sized {
    /// The bytes not read yet, in the order in which they will be read.
    spec fn unread(&self) -> Seq<u8>;

    /// `self` is `before` moved past `n` more bytes, and differs in nothing else.
    spec fn skipped(&self, before: &Self, n: nat) -> bool;

    /// The bytes not read yet.
    fn peek(&self) -> (s: &[u8])
        ensures
            s@ == self.unread(),
    ;

    /// Moves past `n` unread bytes, or past all of them where fewer are left.
    fn advance(&mut self, n: usize)
        ensures
            final(self).skipped(old(self), skip_count(old(self).unread(), n as nat)),
            final(self).unread() == old(self).unread().skip(
                skip_count(old(self).unread(), n as nat) as int,
            ),
    ;
}

/// `after` is `before` once `n` bytes were read from it.
pub open spec fn consumed<S: Source>(after: &S, before: &S, n: nat) -> bool {
    after.skipped(before, n) && after.unread() == before.unread().skip(n as int)
}

/// A read that started at `before` ended at `after` with `r`, where `expected`
/// was due: the value and the source moved past its bytes, or the fault and the
/// source as it was.
pub open spec fn outcome<S: Source, T>(
    before: &S,
    after: &S,
    r: Result<T, DataError>,
    expected: Result<(T, nat), DataError>,
) -> bool {
    match expected {
        Ok((value, n)) => r == Ok::<T, DataError>(value) && consumed(after, before, n),
        Err(e) => r == Err::<T, DataError>(e) && *after == *before,
    }
}

/// The same for a read whose value is known by its view.
pub open spec fn outcome_view<S: Source, T: View>(
    before: &S,
    after: &S,
    r: Result<T, DataError>,
    expected: Result<(T::V, nat), DataError>,
) -> bool {
    match expected {
        Ok((value, n)) => r is Ok && r->Ok_0@ == value && consumed(after, before, n),
        Err(e) => r == Err::<T, DataError>(e) && *after == *before,
    }
}

/// The wire's reads, on any source of bytes held in memory: every read either
/// succeeds and moves the source past what it took, or fails and leaves the
/// source as it was.
pub trait Reader: Source {
    /// Reads exactly `size` bytes, or none where fewer are left.
    fn read_bytes(&mut self, size: usize) -> (r: Result<Vec<u8>, DataError>)
        ensures
            outcome_view(
                old(self),
                final(self),
                r,
                bytes_decoding(old(self).unread(), size as nat),
            ),
    {
        let s = self.peek();
        if size <= s.len() {
            let v = slice_to_vec(slice_subrange(s, 0, size));
            self.advance(size);
            Ok(v)
        } else {
            Err(DataError::ReadError)
        }
    }

    /// Reads one byte.
    fn read_byte(&mut self) -> (r: Result<u8, DataError>)
        ensures
            outcome(old(self), final(self), r, byte_decoding(old(self).unread())),
    {
        proof {
            lemma_pow256_widths();
        }
        match decode_scalar(self.peek(), 1) {
            Ok((v, n)) => {
                self.advance(n);
                Ok(v as u8)
            },
            Err(e) => Err(e),
        }
    }

    /// Reads one byte as a signed number.
    fn read_signed_byte(&mut self) -> (r: Result<i8, DataError>)
        ensures
            outcome(old(self), final(self), r, signed_byte_decoding(old(self).unread())),
    {
        match self.read_byte() {
            Ok(v) => Ok(#[verifier::truncate] (v as i8)),
            Err(e) => Err(e),
        }
    }

    /// Reads a variable-length integer and says how many bytes it took.
    fn read_varint_size(&mut self) -> (r: Result<(i32, usize), DataError>)
        ensures
            outcome(old(self), final(self), r, varint_size_decoding(old(self).unread())),
    {
        match decode_varint(self.peek()) {
            Ok((v, n)) => {
                self.advance(n);
                Ok((v, n))
            },
            Err(e) => Err(e),
        }
    }

    /// Reads a variable-length integer.
    fn read_varint(&mut self) -> (r: Result<i32, DataError>)
        ensures
            outcome(old(self), final(self), r, varint_decoding(old(self).unread())),
    {
        match self.read_varint_size() {
            Ok((v, _)) => Ok(v),
            Err(e) => Err(e),
        }
    }

    /// Reads two bytes as an unsigned number.
    fn read_short(&mut self) -> (r: Result<u16, DataError>)
        ensures
            outcome(old(self), final(self), r, short_decoding(old(self).unread())),
    {
        proof {
            lemma_pow256_widths();
        }
        match decode_scalar(self.peek(), 2) {
            Ok((v, n)) => {
                self.advance(n);
                Ok(v as u16)
            },
            Err(e) => Err(e),
        }
    }

    /// Reads two bytes as a signed number.
    fn read_signed_short(&mut self) -> (r: Result<i16, DataError>)
        ensures
            outcome(old(self), final(self), r, signed_short_decoding(old(self).unread())),
    {
        match self.read_short() {
            Ok(v) => Ok(#[verifier::truncate] (v as i16)),
            Err(e) => Err(e),
        }
    }

    /// Reads four bytes as an unsigned number.
    fn read_int(&mut self) -> (r: Result<u32, DataError>)
        ensures
            outcome(old(self), final(self), r, int_decoding(old(self).unread())),
    {
        proof {
            lemma_pow256_widths();
        }
        match decode_scalar(self.peek(), 4) {
            Ok((v, n)) => {
                self.advance(n);
                Ok(v as u32)
            },
            Err(e) => Err(e),
        }
    }

    /// Reads four bytes as a signed number.
    fn read_signed_int(&mut self) -> (r: Result<i32, DataError>)
        ensures
            outcome(old(self), final(self), r, signed_int_decoding(old(self).unread())),
    {
        match self.read_int() {
            Ok(v) => Ok(#[verifier::truncate] (v as i32)),
            Err(e) => Err(e),
        }
    }

    /// Reads eight bytes as an unsigned number.
    fn read_long(&mut self) -> (r: Result<u64, DataError>)
        ensures
            outcome(old(self), final(self), r, long_decoding(old(self).unread())),
    {
        proof {
            lemma_pow256_widths();
        }
        match decode_scalar(self.peek(), 8) {
            Ok((v, n)) => {
                self.advance(n);
                Ok(v as u64)
            },
            Err(e) => Err(e),
        }
    }

    /// Reads eight bytes as a signed number.
    fn read_signed_long(&mut self) -> (r: Result<i64, DataError>)
        ensures
            outcome(old(self), final(self), r, signed_long_decoding(old(self).unread())),
    {
        match self.read_long() {
            Ok(v) => Ok(#[verifier::truncate] (v as i64)),
            Err(e) => Err(e),
        }
    }

    /// Reads sixteen bytes as a 128-bit identity.
    fn read_uuid(&mut self) -> (r: Result<u128, DataError>)
        ensures
            outcome(old(self), final(self), r, uuid_decoding(old(self).unread())),
    {
        proof {
            lemma_pow256_widths();
        }
        match decode_scalar(self.peek(), 16) {
            Ok((v, n)) => {
                self.advance(n);
                Ok(v)
            },
            Err(e) => Err(e),
        }
    }

    /// Reads one frame and gives the packet in it. With no threshold the
    /// frame holds the packet's body; with one it holds the body's declared
    /// size first and, where that is not zero, the body compressed.
    fn read_packet(&mut self, threshold: Option<usize>) -> (r: Result<Packet, DataError>)
        ensures
            outcome_view(
                old(self),
                final(self),
                r,
                frame_decoding(old(self).unread(), threshold is Some),
            ),
    {
        match decode_frame(self.peek(), threshold.is_some()) {
            Ok((packet, n)) => {
                self.advance(n);
                Ok(packet)
            },
            Err(e) => Err(e),
        }
    }

    /// Reads a string: its length in bytes, then its UTF-8 bytes.
    fn read_string(&mut self) -> (r: Result<String, DataError>)
        ensures
            outcome_view(old(self), final(self), r, string_decoding(old(self).unread())),
    {
        match decode_string(self.peek()) {
            Ok((text, n)) => {
                self.advance(n);
                Ok(text)
            },
            Err(e) => Err(e),
        }
    }
}

} // verus!
