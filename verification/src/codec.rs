use crate::error::BundleError;
use vstd::prelude::*;
use vstd::slice::slice_to_vec;

verus! {

/// The error of `lz4_flex::block::decompress`, carried as an opaque value.
#[verifier::external_type_specification]
#[verifier::external_body]
pub struct ExDecompressError(lz4_flex::block::DecompressError);

/// What the LZ4 block decoder makes of `compressed` when it is given room for
/// `capacity` bytes: the decoded bytes, or nothing when it reports an error.
pub uninterp spec fn lz4_block_decoded(compressed: Seq<u8>, capacity: usize) -> Option<Seq<u8>>;

/// The longest compressed block that is handed to the LZ4 decoder. The
/// decoder adds up length bytes, 255 at most for each byte of input, in
/// machine integers; up to this many input bytes no such sum can wrap, on a
/// 32-bit machine either.
pub const LZ4_INPUT_LIMIT: usize = 0x0080_8080;

/// No LZ4 block expands to more than this many times its length: a byte of
/// input stands for 255 bytes of output at most.
pub const MAX_EXPANSION: usize = 255;

/// The bits of a flags field that select the codec.
pub const CODEC_MASK: u32 = 0x3f;

/// Codec selector: LZMA.
pub const CODEC_LZMA: u32 = 1;

/// Codec selector: LZ4.
pub const CODEC_LZ4: u32 = 2;

/// Codec selector: LZ4, high-compression variant. The encoded form is the same.
pub const CODEC_LZ4HC: u32 = 3;

/// Calls `lz4_flex::block::decompress`. Trusted: for an input within
/// `LZ4_INPUT_LIMIT` and a capacity within `MAX_EXPANSION` times its length,
/// the call returns, and its outcome depends on the two arguments alone; it
/// is the decoder's output on success and an error otherwise. Nothing is
/// claimed about which inputs decode or what they decode to.
#[verifier::external_body]
fn lz4_decode_block(compressed: &[u8], capacity: usize) -> (r: Result<
    Vec<u8>,
    lz4_flex::block::DecompressError,
>)
    requires
        compressed@.len() <= LZ4_INPUT_LIMIT,
        capacity <= MAX_EXPANSION * compressed@.len(),
    ensures
        match r {
            Ok(out) => lz4_block_decoded(compressed@, capacity) == Some(out@),
            Err(_) => lz4_block_decoded(compressed@, capacity) is None,
        },
{
    lz4_flex::block::decompress(compressed, capacity)
}

/// The verdict on what a decoder produced: its output counts only when it
/// has exactly the declared size.
pub open spec fn accepted_output(outcome: Option<Seq<u8>>, size: usize) -> Result<
    Seq<u8>,
    BundleError,
> {
    match outcome {
        Some(out) => if out.len() == size {
            Ok(out)
        } else {
            Err(BundleError::DecompressionFailure)
        },
        None => Err(BundleError::DecompressionFailure),
    }
}

/// Whether an LZ4 block of `len` bytes that declares `size` bytes of output
/// is handed to the decoder at all: it must be within `LZ4_INPUT_LIMIT`, and
/// it must not declare more than it could possibly expand to.
pub open spec fn lz4_admitted(len: nat, size: usize) -> bool {
    len <= LZ4_INPUT_LIMIT && size <= MAX_EXPANSION * len
}

/// The bytes that a compressed region stands for, by codec selector:
/// LZMA is not decoded; LZ4 and LZ4HC must be admitted and expand to exactly
/// `size` bytes; every other selector stores the bytes as they are, whatever
/// `size` says.
pub open spec fn decoded(compressed: Seq<u8>, size: usize, flags: u32) -> Result<
    Seq<u8>,
    BundleError,
> {
    let codec = flags & CODEC_MASK;
    if codec == CODEC_LZMA {
        Err(BundleError::UnsupportedCodec)
    } else if codec == CODEC_LZ4 || codec == CODEC_LZ4HC {
        if !lz4_admitted(compressed.len(), size) {
            Err(BundleError::DecompressionFailure)
        } else {
            accepted_output(lz4_block_decoded(compressed, size), size)
        }
    } else {
        Ok(compressed)
    }
}

/// The bytes of an optional buffer.
pub open spec fn view_of(outcome: Option<Vec<u8>>) -> Option<Seq<u8>> {
    match outcome {
        Some(out) => Some(out@),
        None => None,
    }
}

/// An LZ4 region either expands to exactly the declared size or fails as a
/// `DecompressionFailure`; a stored region never fails and keeps its length.
pub proof fn lemma_decoded_cases(compressed: Seq<u8>, size: usize, flags: u32)
    ensures
        flags & CODEC_MASK == CODEC_LZ4 || flags & CODEC_MASK == CODEC_LZ4HC ==> match decoded(
            compressed,
            size,
            flags,
        ) {
            Ok(out) => out.len() == size && lz4_block_decoded(compressed, size) == Some(out),
            Err(e) => e == BundleError::DecompressionFailure,
        },
        flags & CODEC_MASK == CODEC_LZMA ==> decoded(compressed, size, flags) == Err::<
            Seq<u8>,
            BundleError,
        >(BundleError::UnsupportedCodec),
        flags & CODEC_MASK != CODEC_LZMA && flags & CODEC_MASK != CODEC_LZ4 && flags & CODEC_MASK
            != CODEC_LZ4HC ==> decoded(compressed, size, flags) == Ok::<Seq<u8>, BundleError>(
            compressed,
        ),
{
}

/// Accepts a decoder's output when it has the declared size and turns every
/// other outcome into `DecompressionFailure`.
pub fn accept_output(outcome: Option<Vec<u8>>, size: usize) -> (r: Result<Vec<u8>, BundleError>)
    ensures
        match r {
            Ok(out) => accepted_output(view_of(outcome), size) == Ok::<Seq<u8>, BundleError>(
                out@,
            ),
            Err(e) => accepted_output(view_of(outcome), size) == Err::<Seq<u8>, BundleError>(e),
        },
{
    match outcome {
        Some(out) => {
            if out.len() == size {
                Ok(out)
            } else {
                Err(BundleError::DecompressionFailure)
            }
        },
        None => Err(BundleError::DecompressionFailure),
    }
}

/// Expands one compressed region. `flags` carries the codec selector in its
/// low six bits; `uncompressed_size` is the size the archive declares.
pub fn decompress(compressed_bytes: &[u8], uncompressed_size: usize, flags: u32) -> (r: Result<
    Vec<u8>,
    BundleError,
>)
    ensures
        match r {
            Ok(out) => decoded(compressed_bytes@, uncompressed_size, flags) == Ok::<
                Seq<u8>,
                BundleError,
            >(out@),
            Err(e) => decoded(compressed_bytes@, uncompressed_size, flags) == Err::<
                Seq<u8>,
                BundleError,
            >(e),
        },
        flags & CODEC_MASK == 0 ==> r is Ok && r->Ok_0@ == compressed_bytes@,
        flags & CODEC_MASK == CODEC_LZ4 || flags & CODEC_MASK == CODEC_LZ4HC ==> match r {
            Ok(out) => out@.len() == uncompressed_size,
            Err(e) => e == BundleError::DecompressionFailure,
        },
{
    let codec: u32 = flags & CODEC_MASK;
    if codec == CODEC_LZMA {
        Err(BundleError::UnsupportedCodec)
    } else if codec == CODEC_LZ4 || codec == CODEC_LZ4HC {
        if compressed_bytes.len() > LZ4_INPUT_LIMIT || uncompressed_size > MAX_EXPANSION
            * compressed_bytes.len() {
            Err(BundleError::DecompressionFailure)
        } else {
            let outcome: Option<Vec<u8>> = match lz4_decode_block(
                compressed_bytes,
                uncompressed_size,
            ) {
                Ok(out) => Some(out),
                Err(_) => None,
            };
            accept_output(outcome, uncompressed_size)
        }
    } else {
        Ok(slice_to_vec(compressed_bytes))
    }
}

} // verus!
