//! Frames: the length-prefixed envelope of a packet, with the compression
//! envelope inside it where a threshold is set.

use vstd::prelude::*;
use vstd::slice::{slice_subrange, slice_to_vec};
use super::{compress, decompress, decompressed, zlib_deflated, zlib_inflated, DataError, COMPRESSION_LEVEL};
use super::buffer::{push_all, Buffer};
use super::packet::{Packet, PacketView};
use super::varint::{
    decode_varint, encode_varint, lemma_varint_decoding_stable, lemma_varint_roundtrip,
    varint_decoding, varint_encoding,
};

verus! {

/// A packet's body: its id as a variable-length integer, then its payload.
pub open spec fn packet_body(id: u8, payload: Seq<u8>) -> Seq<u8> {
    varint_encoding(id as i32) + payload
}

/// A count of bytes as it stands before them: a variable-length integer.
pub open spec fn length_prefix(n: nat) -> Seq<u8> {
    varint_encoding(n as i32)
}

/// `inner` behind the count of its bytes.
pub open spec fn framed(inner: Seq<u8>) -> Seq<u8> {
    length_prefix(inner.len()) + inner
}

/// The inside of a frame whose body is stored as it is: a zero, then the body.
pub open spec fn stored_inner(body: Seq<u8>) -> Seq<u8> {
    varint_encoding(0) + body
}

/// The inside of a frame whose body is compressed: the body's own size, then
/// the compressed stream.
pub open spec fn deflated_inner(body_len: nat, deflated: Seq<u8>) -> Seq<u8> {
    length_prefix(body_len) + deflated
}

/// The inside of a frame for `body` under the threshold `limit`, where
/// compressing `body` yields `deflated`: compressed where the body is longer
/// than the threshold, stored otherwise. Nothing where compression is due and
/// failed.
pub open spec fn frame_inner(body: Seq<u8>, limit: nat, deflated: Option<Seq<u8>>) -> Option<
    Seq<u8>,
> {
    if body.len() > limit {
        match deflated {
            Some(z) => Some(deflated_inner(body.len(), z)),
            None => None,
        }
    } else {
        Some(stored_inner(body))
    }
}

/// The frame of a packet under `threshold`, or nothing where compression is due
/// and fails.
pub open spec fn frame_encoding(packet: PacketView, threshold: Option<usize>) -> Option<Seq<u8>> {
    let body = packet_body(packet.id, packet.data);
    match threshold {
        None => Some(framed(body)),
        Some(limit) => match frame_inner(
            body,
            limit as nat,
            zlib_deflated(body, COMPRESSION_LEVEL),
        ) {
            Some(inner) => Some(framed(inner)),
            None => None,
        },
    }
}

/// The packet that the bytes inside a frame hold: the id in a leading
/// variable-length integer, the rest as payload, nothing of it read.
pub open spec fn opened(data: Seq<u8>) -> Result<PacketView, DataError> {
    match varint_decoding(data) {
        Ok((id, n)) => Ok(PacketView { id: id as u8, data: data.skip(n as int), pos: 0 }),
        Err(e) => Err(e),
    }
}

/// The body of a frame that declares `declared` bytes before compression,
/// where decompressing what it carries yields `inflated`: `ZlibError` where
/// that failed or has another size than declared.
pub open spec fn inflated_body(declared: i32, inflated: Result<Seq<u8>, DataError>) -> Result<
    Seq<u8>,
    DataError,
> {
    match inflated {
        Ok(body) => if body.len() == declared {
            Ok(body)
        } else {
            Err(DataError::ZlibError)
        },
        Err(_) => Err(DataError::ZlibError),
    }
}

/// The body inside a frame whose inside is `inner` (what follows the frame's
/// own length), read under a threshold: the declared size first; where it is
/// zero the rest is the body, otherwise the rest is a zlib stream of it.
pub open spec fn inner_body(inner: Seq<u8>) -> Result<Seq<u8>, DataError> {
    match varint_decoding(inner) {
        Err(e) => Err(e),
        Ok((declared, k)) => {
            let rest = inner.skip(k as int);
            if declared != 0 {
                inflated_body(declared, decompressed(zlib_inflated(rest)))
            } else {
                Ok(rest)
            }
        },
    }
}

/// The frame at the start of `s`: the packet it holds and the count of its
/// bytes. `compressed` says whether a threshold is set. `ReadError` where the
/// length is negative or `s` ends before the frame does.
pub open spec fn frame_decoding(s: Seq<u8>, compressed: bool) -> Result<
    (PacketView, nat),
    DataError,
> {
    match varint_decoding(s) {
        Err(e) => Err(e),
        Ok((length, k)) => if length < 0 || k + length > s.len() {
            Err(DataError::ReadError)
        } else {
            let inner = s.subrange(k as int, k + length);
            let body = if compressed {
                inner_body(inner)
            } else {
                Ok(inner)
            };
            match body {
                Err(e) => Err(e),
                Ok(data) => match opened(data) {
                    Err(e) => Err(e),
                    Ok(packet) => Ok((packet, (k + length) as nat)),
                },
            }
        },
    }
}

/// The body of `packet`: its id, then its whole payload.
pub fn encode_body(packet: &Packet) -> (out: Vec<u8>)
    ensures
        out@ == packet_body(packet@.id, packet@.data),
{
    let mut out = encode_varint(packet.id() as i32);
    push_all(&mut out, packet.get_bytes());
    out
}

/// `inner` behind the count of its bytes.
pub fn frame_bytes(inner: &[u8]) -> (out: Vec<u8>)
    ensures
        out@ == framed(inner@),
{
    let mut out = encode_varint(#[verifier::truncate] (inner.len() as i32));
    push_all(&mut out, inner);
    out
}

/// The inside of a frame that stores `body` as it is.
pub fn store_body(body: &[u8]) -> (out: Vec<u8>)
    ensures
        out@ == stored_inner(body@),
{
    let mut out = encode_varint(0);
    push_all(&mut out, body);
    out
}

/// The inside of a frame that carries `deflated`, the compressed form of a
/// body of `body_len` bytes.
pub fn deflated_body(body_len: usize, deflated: &[u8]) -> (out: Vec<u8>)
    ensures
        out@ == deflated_inner(body_len as nat, deflated@),
{
    let mut out = encode_varint(#[verifier::truncate] (body_len as i32));
    push_all(&mut out, deflated);
    out
}

/// The frame of `packet` under `threshold`: with no threshold, the body behind
/// its length; with one, the body compressed where it is longer than the
/// threshold and stored behind a zero otherwise, behind the length of all that.
pub fn encode_packet(packet: &Packet, threshold: Option<usize>) -> (r: Result<Vec<u8>, DataError>)
    ensures
        match frame_encoding(packet@, threshold) {
            Some(frame) => r matches Ok(v) && v@ == frame,
            None => r matches Err(e) && e == DataError::ZlibError,
        },
{
    let body = encode_body(packet);
    match threshold {
        None => Ok(frame_bytes(body.as_slice())),
        Some(limit) => {
            if body.len() > limit {
                match compress(body.as_slice()) {
                    Ok(deflated) => {
                        let inner = deflated_body(body.len(), deflated.as_slice());
                        Ok(frame_bytes(inner.as_slice()))
                    },
                    Err(e) => Err(e),
                }
            } else {
                Ok(frame_bytes(store_body(body.as_slice()).as_slice()))
            }
        },
    }
}

/// The packet that `data`, the body of a frame, holds.
pub fn open_packet(data: &[u8]) -> (r: Result<Packet, DataError>)
    ensures
        match opened(data@) {
            Ok(packet) => r matches Ok(p) && p@ == packet,
            Err(e) => r matches Err(f) && f == e,
        },
{
    match decode_varint(data) {
        Ok((id, n)) => {
            let payload = slice_to_vec(slice_subrange(data, n, data.len()));
            Ok(Packet::new(#[verifier::truncate] (id as u8), Buffer::new(payload)))
        },
        Err(e) => Err(e),
    }
}

/// Holds what decompression yielded against the size that the frame declared.
pub fn check_inflated(declared: i32, inflated: Result<Vec<u8>, DataError>) -> (r: Result<
    Vec<u8>,
    DataError,
>)
    ensures
        match inflated_body(
            declared,
            match inflated {
                Ok(v) => Ok(v@),
                Err(e) => Err(e),
            },
        ) {
            Ok(body) => r matches Ok(v) && v@ == body,
            Err(e) => r matches Err(f) && f == e,
        },
{
    match inflated {
        Ok(body) => {
            if declared >= 0 && body.len() == declared as usize {
                Ok(body)
            } else {
                Err(DataError::ZlibError)
            }
        },
        Err(_) => Err(DataError::ZlibError),
    }
}

/// The body inside a frame read under a threshold.
pub fn open_inner(inner: &[u8]) -> (r: Result<Vec<u8>, DataError>)
    ensures
        match inner_body(inner@) {
            Ok(body) => r matches Ok(v) && v@ == body,
            Err(e) => r matches Err(f) && f == e,
        },
{
    match decode_varint(inner) {
        Err(e) => Err(e),
        Ok((declared, k)) => {
            let rest = slice_subrange(inner, k, inner.len());
            if declared != 0 {
                check_inflated(declared, decompress(rest))
            } else {
                Ok(slice_to_vec(rest))
            }
        },
    }
}

/// Decodes the frame at the start of `bytes` and says how many bytes it took.
pub fn decode_frame(bytes: &[u8], compressed: bool) -> (r: Result<(Packet, usize), DataError>)
    ensures
        match frame_decoding(bytes@, compressed) {
            Ok((packet, n)) => r matches Ok((p, m)) && p@ == packet && m == n && n <= bytes@.len(),
            Err(e) => r matches Err(f) && f == e,
        },
{
    match decode_varint(bytes) {
        Err(e) => Err(e),
        Ok((length, k)) => {
            if length < 0 || length as usize > bytes.len() - k {
                return Err(DataError::ReadError);
            }
            let end: usize = k + length as usize;
            let inner = slice_subrange(bytes, k, end);
            let opened = if compressed {
                match open_inner(inner) {
                    Ok(body) => open_packet(body.as_slice()),
                    Err(e) => Err(e),
                }
            } else {
                open_packet(inner)
            };
            match opened {
                Ok(packet) => Ok((packet, end)),
                Err(e) => Err(e),
            }
        },
    }
}

/// How many more bytes a reader of a transport must obtain before `s`, what
/// it has of a frame so far, can hold the whole frame: one where the frame's
/// length is not complete yet, otherwise what is missing of the length and the
/// bytes it counts, zero where the frame is whole.
pub open spec fn frame_shortfall(s: Seq<u8>) -> Result<nat, DataError> {
    match varint_decoding(s) {
        Err(DataError::ReadError) => Ok(1),
        Err(e) => Err(e),
        Ok((length, k)) => if length < 0 {
            Err(DataError::ReadError)
        } else if k + length > s.len() {
            Ok((k + length - s.len()) as nat)
        } else {
            Ok(0)
        },
    }
}

/// Says how many more bytes to obtain before `received` can hold a whole frame.
pub fn bytes_wanted(received: &[u8]) -> (r: Result<usize, DataError>)
    ensures
        match frame_shortfall(received@) {
            Ok(n) => r == Ok::<usize, DataError>(n as usize) && n <= 0x8000_0004,
            Err(e) => r == Err::<usize, DataError>(e),
        },
{
    match decode_varint(received) {
        Err(DataError::ReadError) => Ok(1),
        Err(e) => Err(e),
        Ok((length, k)) => {
            if length < 0 {
                Err(DataError::ReadError)
            } else if length as usize > received.len() - k {
                Ok(length as usize - (received.len() - k))
            } else {
                Ok(0)
            }
        },
    }
}

/// Whether a body is compressed under `threshold`: where one is set and the
/// body is longer.
pub open spec fn compression_due(body: Seq<u8>, threshold: Option<usize>) -> bool {
    threshold matches Some(limit) && body.len() > limit
}

/// Compression of `body` succeeds, its output has a length that a length
/// prefix can hold, and decompression of it gives `body` back.
pub open spec fn inflates_back(body: Seq<u8>) -> bool {
    zlib_deflated(body, COMPRESSION_LEVEL) matches Some(z) && z.len() + 5 <= i32::MAX
        && zlib_inflated(z) == Some(body)
}

/// A body opens to the packet it was made of.
pub proof fn lemma_opened_body(id: u8, payload: Seq<u8>)
    ensures
        opened(packet_body(id, payload)) == Ok::<PacketView, DataError>(
            PacketView { id, data: payload, pos: 0 },
        ),
        packet_body(id, payload).len() == varint_encoding(id as i32).len() + payload.len(),
        1 <= varint_encoding(id as i32).len() <= 5,
{
    lemma_varint_roundtrip(id as i32, payload);
    assert(packet_body(id, payload).skip(varint_encoding(id as i32).len() as int) =~= payload);
}

/// A body stored behind a zero is found again.
pub proof fn lemma_inner_stored(body: Seq<u8>)
    ensures
        inner_body(stored_inner(body)) == Ok::<Seq<u8>, DataError>(body),
        stored_inner(body).len() == 1 + body.len(),
{
    lemma_varint_roundtrip(0, body);
    assert(stored_inner(body).skip(1) =~= body);
}

/// A compressed body behind its size is found again where decompression
/// gives it back.
pub proof fn lemma_inner_deflated(body: Seq<u8>, deflated: Seq<u8>)
    requires
        0 < body.len() <= i32::MAX,
        zlib_inflated(deflated) == Some(body),
    ensures
        inner_body(deflated_inner(body.len(), deflated)) == Ok::<Seq<u8>, DataError>(body),
        deflated_inner(body.len(), deflated).len() <= 5 + deflated.len(),
{
    let n = body.len() as i32;
    lemma_varint_roundtrip(n, deflated);
    assert(deflated_inner(body.len(), deflated).skip(varint_encoding(n).len() as int)
        =~= deflated);
}

/// What stands behind its length is found again, whatever follows.
pub proof fn lemma_framed(inner: Seq<u8>, rest: Seq<u8>)
    requires
        inner.len() <= i32::MAX,
    ensures
        varint_decoding(framed(inner) + rest) matches Ok((length, k)) && length == inner.len()
            && k + length == framed(inner).len() && (framed(inner) + rest).subrange(
            k as int,
            k + length,
        ) == inner,
{
    let n = inner.len() as i32;
    lemma_varint_roundtrip(n, inner + rest);
    let k = varint_encoding(n).len();
    assert(framed(inner) + rest =~= varint_encoding(n) + (inner + rest));
    assert((framed(inner) + rest).subrange(k as int, (k + inner.len()) as int) =~= inner);
}

/// The frame of `packet` under `threshold`, with `rest` behind it, decodes to
/// the packet's id and whole payload, nothing of it read, and takes exactly
/// the frame's bytes.
pub open spec fn reads_back(packet: PacketView, threshold: Option<usize>, rest: Seq<u8>) -> bool {
    match frame_encoding(packet, threshold) {
        Some(frame) => frame_decoding(frame + rest, threshold is Some) == Ok::<
            (PacketView, nat),
            DataError,
        >((PacketView { id: packet.id, data: packet.data, pos: 0 }, frame.len())),
        None => false,
    }
}

/// A packet survives being framed and read back, whatever bytes follow the
/// frame: the frame decodes to the packet's id and whole payload, with nothing
/// of it read, and takes exactly the frame's bytes. This holds of every packet
/// whose payload leaves room for the frame's prefixes in the signed 32 bits of
/// a length; where the body is compressed, it holds as far as decompression
/// gives back what compression was given.
pub proof fn lemma_frame_roundtrip(packet: PacketView, threshold: Option<usize>, rest: Seq<u8>)
    requires
        packet.data.len() + 10 <= i32::MAX,
    ensures
        !compression_due(packet_body(packet.id, packet.data), threshold) || inflates_back(
            packet_body(packet.id, packet.data),
        ) ==> reads_back(packet, threshold, rest),
{
    let body = packet_body(packet.id, packet.data);
    lemma_opened_body(packet.id, packet.data);
    if !compression_due(body, threshold) || inflates_back(body) {
        match threshold {
            None => {
                lemma_framed(body, rest);
            },
            Some(limit) => {
                if body.len() > limit {
                    let z = zlib_deflated(body, COMPRESSION_LEVEL)->Some_0;
                    lemma_inner_deflated(body, z);
                    lemma_framed(deflated_inner(body.len(), z), rest);
                } else {
                    lemma_inner_stored(body);
                    lemma_framed(stored_inner(body), rest);
                }
            },
        }
    }
}

/// What is missing of a frame cannot be read as one: bytes of which more are
/// wanted decode to `ReadError`, and a fault in the frame's length is the
/// fault of decoding it. Of a frame that is whole, decoding takes no more
/// than its length and the bytes that the length counts.
pub proof fn lemma_shortfall_agrees(s: Seq<u8>, compressed: bool)
    ensures
        match frame_shortfall(s) {
            Ok(missing) => if missing > 0 {
                frame_decoding(s, compressed) == Err::<(PacketView, nat), DataError>(
                    DataError::ReadError,
                )
            } else {
                varint_decoding(s) matches Ok((length, k)) && (frame_decoding(
                    s,
                    compressed,
                ) matches Ok((_, n)) ==> n == k + length)
            },
            Err(e) => frame_decoding(s, compressed) == Err::<(PacketView, nat), DataError>(e),
        },
{
}

/// A reader that obtains what is wanted comes to a whole frame: while the
/// frame's length is not complete fewer than five bytes are there and one more
/// is wanted, and once it is complete, the bytes that are wanted make the
/// frame whole.
pub proof fn lemma_shortfall_is_met(s: Seq<u8>, more: Seq<u8>)
    requires
        frame_shortfall(s) matches Ok(missing) && missing > 0 && more.len() == missing,
    ensures
        varint_decoding(s) is Ok ==> frame_shortfall(s + more) == Ok::<nat, DataError>(0),
        varint_decoding(s) is Err ==> s.len() < 5 && more.len() == 1,
{
    lemma_varint_decoding_stable(s, more);
}

} // verus!
