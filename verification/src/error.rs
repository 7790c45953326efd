use vstd::prelude::*;

verus! {

/// Why an archive could not be decoded. Each value names the stage that gave up.
#[derive(Clone, Copy, Debug, PartialEq, Eq, Structural)]
pub enum BundleError {
    /// The textual header or the container descriptor ends early, or the
    /// signature is not a run of ASCII letters closed by a NUL byte.
    MalformedHeader,
    /// The archive declares a format version whose layout is not decoded.
    UnsupportedFormatVersion,
    /// The codec selector names a compression scheme that is not decoded.
    UnsupportedCodec,
    /// Compressed data is damaged or does not expand to the declared size.
    DecompressionFailure,
    /// The blocks-info table ends before the records it announces, or a path
    /// in it is not text.
    TruncatedBlocksInfo,
    /// The payload is shorter than the storage blocks or the directory ask for.
    TruncatedPayload,
    /// A storage block expanded to a length other than the one it declares.
    SizeMismatch,
}

} // verus!
