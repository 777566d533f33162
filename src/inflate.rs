//! Exact-size inflation of the raw DEFLATE blocks stored in a container.
//!
//! Every stored block starts with a 4-byte field that the decoder skips;
//! the raw DEFLATE stream (no zlib or gzip envelope) follows it.

use std::io::Read;
use vstd::prelude::*;

verus! {

/// Why the DEFLATE decoder gave up on a stream.
#[derive(Clone, Copy, Debug, PartialEq, Eq, Structural)]
pub enum InflateFault {
    /// The input ended before the stream did.
    Truncated,
    /// The stream is not valid DEFLATE.
    Corrupt,
}

/// Why a stored block could not be inflated to its declared size.
#[derive(Clone, Copy, Debug, PartialEq, Eq, Structural)]
pub enum DecompressErr {
    /// The block is shorter than its 4-byte leading field.
    ShortBlock { len: usize },
    /// The decoder failed.
    Codec(InflateFault),
    /// The stream decoded cleanly, to a length other than the declared one.
    SizeMismatch { expected: usize, actual: usize },
}

/// The bytes of a byte-vector result, error unchanged.
pub open spec fn bytes_result<E>(r: Result<Vec<u8>, E>) -> Result<Seq<u8>, E> {
    match r {
        Ok(v) => Ok(v@),
        Err(e) => Err(e),
    }
}

/// What the raw DEFLATE decoder makes of a whole input: the decoded bytes,
/// or why it failed. Bytes after the end of the stream are ignored.
pub uninterp spec fn raw_inflate(data: Seq<u8>) -> Result<Seq<u8>, InflateFault>;

/// A decoder outcome held against the declared size: anything but exactly
/// `size` bytes is an error.
pub open spec fn inflate_checked(res: Result<Seq<u8>, InflateFault>, size: usize) -> Result<
    Seq<u8>,
    DecompressErr,
> {
    match res {
        Err(f) => Err(DecompressErr::Codec(f)),
        Ok(out) => if out.len() == size {
            Ok(out)
        } else {
            Err(DecompressErr::SizeMismatch { expected: size, actual: out.len() as usize })
        },
    }
}

/// A stored block inflated to `size` bytes: its leading 4-byte field is
/// skipped and the rest decoded as raw DEFLATE.
pub open spec fn inflate_block(block: Seq<u8>, size: usize) -> Result<Seq<u8>, DecompressErr> {
    if block.len() < 4 {
        Err(DecompressErr::ShortBlock { len: block.len() as usize })
    } else {
        inflate_checked(raw_inflate(block.skip(4)), size)
    }
}

/// A stored block inflates only to exactly its declared size: a stream that
/// decodes cleanly to any other length is rejected as a size mismatch.
pub proof fn lemma_inflate_exact_size(block: Seq<u8>, size: usize)
    ensures
        inflate_block(block, size) matches Ok(out) ==> out.len() == size,
        forall|out: Seq<u8>|
            block.len() >= 4 && raw_inflate(block.skip(4)) == Ok::<Seq<u8>, InflateFault>(out)
                && out.len() != size ==> (inflate_block(block, size) matches Err(
                DecompressErr::SizeMismatch { .. },
            )),
{
}

/// Relies on `flate2::read::DeflateDecoder`, read to its end: the raw
/// DEFLATE stream in `data` decoded. Its reader reports a stream cut short
/// as `UnexpectedEof` and any other defect as another error kind.
#[verifier::external_body]
fn inflate_raw(data: &[u8]) -> (r: Result<Vec<u8>, InflateFault>)
    ensures
        bytes_result(r) == raw_inflate(data@),
{
    let mut out = Vec::new();
    match flate2::read::DeflateDecoder::new(data).read_to_end(&mut out) {
        Ok(_) => Ok(out),
        Err(e) if e.kind() == std::io::ErrorKind::UnexpectedEof => Err(InflateFault::Truncated),
        Err(_) => Err(InflateFault::Corrupt),
    }
}

/// Holds a decoder outcome against the declared size `size`.
pub fn check_inflated(out: Result<Vec<u8>, InflateFault>, size: usize) -> (r: Result<
    Vec<u8>,
    DecompressErr,
>)
    ensures
        bytes_result(r) == inflate_checked(bytes_result(out), size),
        r matches Ok(v) ==> v@.len() == size,
        out matches Ok(v) && v@.len() != size ==> r matches Err(
            DecompressErr::SizeMismatch { .. },
        ),
{
    match out {
        Err(f) => Err(DecompressErr::Codec(f)),
        Ok(v) => {
            if v.len() == size {
                Ok(v)
            } else {
                let actual = v.len();
                Err(DecompressErr::SizeMismatch { expected: size, actual })
            }
        },
    }
}

/// Inflates a stored block to exactly `size` bytes. No partial output is
/// ever returned: a decoder error, a short block or any other length is an
/// error.
pub fn decompress(block: &[u8], size: usize) -> (r: Result<Vec<u8>, DecompressErr>)
    ensures
        bytes_result(r) == inflate_block(block@, size),
        r matches Ok(v) ==> v@.len() == size,
{
    if block.len() < 4 {
        return Err(DecompressErr::ShortBlock { len: block.len() });
    }
    let stream = &block[4..block.len()];
    assert(stream@ == block@.skip(4));
    let out = inflate_raw(stream);
    check_inflated(out, size)
}

} // verus!
