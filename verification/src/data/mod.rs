//! The wire codec: scalars, strings, packets and their frames.

use vstd::prelude::*;
use crate::inet::InetError;

pub mod buffer;
pub mod endian;
pub mod frame;
pub mod packet;
pub mod packet_id;
pub mod reader;
pub mod roundtrip;
pub mod varint;
pub mod writer;

pub use buffer::Buffer;
pub use packet::Packet;
pub use packet_id::{clientbound, serverbound};
pub use reader::{Reader, Source};
pub use writer::{Sink, Writer};

verus! {

/// What can go wrong while bytes are read, written, decoded or encoded.
#[derive(Debug, Clone, Copy, PartialEq, Eq, Structural)]
pub enum DataError {
    /// Fewer bytes were available than a read asked for, or the transport failed.
    ReadError,
    /// The transport refused a write.
    WriteError,
    /// A variable-length integer ran past its fifth byte.
    VarIntIsSoBig,
    /// A string's bytes were not UTF-8.
    StringDecodeError,
    /// A transport fault.
    Inet(InetError),
    /// A value could not be serialized.
    SerializationError,
    /// A value could not be deserialized.
    DeSerializationError,
    /// Compressed data was corrupt or did not have its declared size.
    ZlibError,
    /// Bytes or a tag tree broke the rules of the tagged binary format.
    NBTError,
}

/// The level at which packet bodies are compressed: the fastest.
pub const COMPRESSION_LEVEL: u32 = 1;

/// `std::io::Error`, which the zlib streams report: carried through opaque.
#[verifier::external_type_specification]
#[verifier::external_body]
pub struct ExIoError(std::io::Error);

/// What zlib compression of `data` at `level` yields: the compressed stream, or
/// nothing where the encoder reports a fault.
pub uninterp spec fn zlib_deflated(data: Seq<u8>, level: u32) -> Option<Seq<u8>>;

/// What zlib decompression of `data` yields: the bytes that the stream holds,
/// or nothing where the decoder reports a fault.
pub uninterp spec fn zlib_inflated(data: Seq<u8>) -> Option<Seq<u8>>;

/// `flate2::write::ZlibEncoder` over a `Vec`, fed all of `bytes` and finished.
/// The contract claims only that the outcome is a function of `bytes` and
/// `level`; it names that outcome and says nothing of what it holds.
#[verifier::external_body]
fn zlib_encode(bytes: &[u8], level: u32) -> (r: Result<Vec<u8>, std::io::Error>)
    requires
        level <= 9,
    ensures
        r matches Ok(out) ==> zlib_deflated(bytes@, level) == Some(out@),
        r is Err ==> zlib_deflated(bytes@, level) is None,
{
    let mut encoder = flate2::write::ZlibEncoder::new(Vec::new(), flate2::Compression::new(level));
    std::io::Write::write_all(&mut encoder, bytes)?;
    encoder.finish()
}

/// `flate2::read::ZlibDecoder` over `bytes`, read to its end. The contract
/// claims only that the outcome is a function of `bytes`; it names that outcome
/// and says nothing of what it holds.
#[verifier::external_body]
fn zlib_decode(bytes: &[u8]) -> (r: Result<Vec<u8>, std::io::Error>)
    ensures
        r matches Ok(out) ==> zlib_inflated(bytes@) == Some(out@),
        r is Err ==> zlib_inflated(bytes@) is None,
{
    let mut decoder = flate2::read::ZlibDecoder::new(bytes);
    let mut output = Vec::new();
    std::io::Read::read_to_end(&mut decoder, &mut output)?;
    Ok(output)
}

/// What [`decompress`] returns where zlib yields `inflated`.
pub open spec fn decompressed(inflated: Option<Seq<u8>>) -> Result<Seq<u8>, DataError> {
    match inflated {
        Some(bytes) => Ok(bytes),
        None => Err(DataError::ZlibError),
    }
}

/// Decompresses a zlib stream; `ZlibError` where the stream is corrupt.
pub fn decompress(bytes: &[u8]) -> (r: Result<Vec<u8>, DataError>)
    ensures
        match decompressed(zlib_inflated(bytes@)) {
            Ok(out) => r matches Ok(v) && v@ == out,
            Err(e) => r matches Err(f) && f == e,
        },
{
    match zlib_decode(bytes) {
        Ok(out) => Ok(out),
        Err(_) => Err(DataError::ZlibError),
    }
}

/// Compresses `bytes` into a zlib stream at [`COMPRESSION_LEVEL`]; `ZlibError`
/// where the encoder reports a fault.
pub fn compress(bytes: &[u8]) -> (r: Result<Vec<u8>, DataError>)
    ensures
        match decompressed(zlib_deflated(bytes@, COMPRESSION_LEVEL)) {
            Ok(out) => r matches Ok(v) && v@ == out,
            Err(e) => r matches Err(f) && f == e,
        },
{
    match zlib_encode(bytes, COMPRESSION_LEVEL) {
        Ok(out) => Ok(out),
        Err(_) => Err(DataError::ZlibError),
    }
}

} // verus!
