//! Compression of whole messages in the ZLIB format.

use vstd::prelude::*;

verus! {

/// Size of the header that every compressed message begins with.
pub const ZLIB_HEADER: usize = 2;

/// What `libflate::zlib::Encoder`, with its default options, makes of the given bytes.
pub uninterp spec fn zlib_compressed(data: Seq<u8>) -> Seq<u8>;

/// What `libflate::zlib::Decoder` makes of the given bytes; `None` is its error.
pub uninterp spec fn zlib_decompressed(data: Seq<u8>) -> Option<Seq<u8>>;

/// Writes `data` through a `libflate::zlib::Encoder` into a vector.
///
/// Claims that the outcome depends on `data` alone, that the decoder gives `data` back from it,
/// and that it is longer than the header that it begins with. Writing to a vector raises no
/// error, so neither does the encoder.
#[verifier::external_body]
pub(crate) fn zlib_compress(data: &[u8]) -> (compressed: Vec<u8>)
    ensures
        compressed@ == zlib_compressed(data@),
        zlib_decompressed(compressed@) == Some(data@),
        compressed@.len() > ZLIB_HEADER,
{
    let compressed_data = Vec::with_capacity(data.len());
    let mut encoder = libflate::zlib::Encoder::new(compressed_data).expect("zlib header");
    std::io::Write::write_all(&mut encoder, data).expect("zlib body");
    encoder.finish().into_result().expect("zlib trailer")
}

/// Reads all of `data` through a `libflate::zlib::Decoder`.
///
/// Claims that the outcome, failure included, depends on `data` alone, and that what is shorter
/// than a header is refused.
#[verifier::external_body]
pub(crate) fn zlib_decompress(data: &[u8]) -> (decompressed: Option<Vec<u8>>)
    ensures
        decompressed matches Some(bytes) ==> zlib_decompressed(data@) == Some(bytes@),
        decompressed is None ==> zlib_decompressed(data@) is None,
        data@.len() < ZLIB_HEADER ==> decompressed is None,
{
    let mut decoder = libflate::zlib::Decoder::new(data).ok()?;
    let mut buf = Vec::new();
    std::io::Read::read_to_end(&mut decoder, &mut buf).ok()?;
    Some(buf)
}

} // verus!
