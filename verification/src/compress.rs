//! Compressed blocks of the MDict container: a 4-byte big-endian scheme
//! (none, LZO1X or zlib), a 4-byte checksum the parser does not check, and
//! the payload.

use vstd::prelude::*;
use crate::bytes::{
    MdxError, MdxFault, LzoFault, MAX_SECTION_BYTES, be_at, checked_len, read_u32_be,
};
use flate2::read::ZlibDecoder;
use std::io::Read;

verus! {

/// Block compression scheme: stored as is.
pub const COMP_NONE: u32 = 0x00000000;

/// Block compression scheme: LZO1X.
pub const COMP_LZO: u32 = 0x01000000;

/// Block compression scheme: zlib.
pub const COMP_ZLIB: u32 = 0x02000000;

/// What zlib inflation of a payload gives (`None` where the stream is
/// invalid or truncated).
pub uninterp spec fn zlib_inflate(payload: Seq<u8>) -> Option<Seq<u8>>;

/// `flate2::read::ZlibDecoder` read to its end: the inflated payload, or
/// `None` when the decoder reports an error. What inflation yields is left
/// to the name `zlib_inflate`; `capacity` only sizes the first allocation.
#[verifier::external_body]
fn zlib_decompress(payload: &[u8], capacity: usize) -> (r: Option<Vec<u8>>)
    ensures
        match r {
            Some(v) => zlib_inflate(payload@) == Some(v@),
            None => zlib_inflate(payload@) is None,
        },
{
    let mut decoder = ZlibDecoder::new(payload);
    let mut out = Vec::with_capacity(capacity);
    match decoder.read_to_end(&mut out) {
        Ok(_) => Some(out),
        Err(_) => None,
    }
}

/// What LZO1X decompression of `src` into exactly `len` bytes gives.
pub uninterp spec fn lzo1x_decompressed(src: Seq<u8>, len: nat) -> Result<Seq<u8>, LzoFault>;

/// `lzo1x::decompress` into a buffer of `len` bytes: on success the buffer,
/// which the crate fills exactly; on failure which of its two errors came.
/// The decompression itself is left to the name `lzo1x_decompressed`.
#[verifier::external_body]
fn lzo1x_decompress(src: &[u8], len: usize) -> (r: Result<Vec<u8>, LzoFault>)
    ensures
        match r {
            Ok(v) => lzo1x_decompressed(src@, len as nat) == Ok::<Seq<u8>, LzoFault>(v@)
                && v@.len() == len,
            Err(f) => lzo1x_decompressed(src@, len as nat) == Err::<Seq<u8>, LzoFault>(f),
        },
{
    let mut out = vec![0u8; len];
    match lzo1x::decompress(src, &mut out) {
        Ok(()) => Ok(out),
        Err(lzo1x::DecompressError::InvalidInput) => Err(LzoFault::InvalidInput),
        Err(lzo1x::DecompressError::OutputLength) => Err(LzoFault::OutputLength),
    }
}

/// A byte result seen through the views of its parts.
pub open spec fn bytes_result(r: Result<Vec<u8>, MdxError>) -> Result<Seq<u8>, MdxFault> {
    match r {
        Ok(v) => Ok(v@),
        Err(e) => Err(e@),
    }
}

/// What decompressing the block `data` gives, declared to decompress to
/// `size` bytes.
pub open spec fn spec_decompress_block(data: Seq<u8>, size: u64) -> Result<Seq<u8>, MdxFault> {
    if data.len() < 8 {
        Err(MdxFault::BlockTooShort { size: data.len() as usize })
    } else if size > MAX_SECTION_BYTES {
        Err(MdxFault::SectionTooLarge { label: "decompressed_size"@, len: size })
    } else {
        let comp_type = be_at(data, 0, 4);
        let payload = data.skip(8);
        if comp_type == COMP_NONE {
            Ok(payload)
        } else if comp_type == COMP_LZO {
            match lzo1x_decompressed(payload, size as nat) {
                Ok(v) => Ok(v),
                Err(f) => Err(MdxFault::LzoFailed { fault: f }),
            }
        } else if comp_type == COMP_ZLIB {
            match zlib_inflate(payload) {
                Some(v) => Ok(v),
                None => Err(MdxFault::ZlibFailed),
            }
        } else {
            Err(MdxFault::UnsupportedCompression { comp_type: comp_type as u32 })
        }
    }
}

/// Decompresses one block of the container.
pub fn decompress_block(data: &[u8], decompressed_size: u64) -> (r: Result<Vec<u8>, MdxError>)
    ensures
        bytes_result(r) == spec_decompress_block(data@, decompressed_size),
{
    if data.len() < 8 {
        return Err(MdxError::BlockTooShort { size: data.len() });
    }
    let comp_type = match read_u32_be(data, 0) {
        Ok(v) => v,
        Err(e) => return Err(e),
    };
    let payload = vstd::slice::slice_subrange(data, 8, data.len());
    let decompressed_len = checked_len("decompressed_size", decompressed_size)?;
    proof {
        reveal_strlit("decompressed_size");
    }
    if comp_type == COMP_NONE {
        Ok(vstd::slice::slice_to_vec(payload))
    } else if comp_type == COMP_LZO {
        match lzo1x_decompress(payload, decompressed_len) {
            Ok(v) => Ok(v),
            Err(f) => Err(MdxError::LzoFailed { fault: f }),
        }
    } else if comp_type == COMP_ZLIB {
        match zlib_decompress(payload, decompressed_len) {
            Some(v) => Ok(v),
            None => Err(MdxError::ZlibFailed),
        }
    } else {
        Err(MdxError::UnsupportedCompression { comp_type })
    }
}

} // verus!
