//! Compression of the blobs that the package store keeps, with gzip.

use vstd::prelude::*;
use crate::error::OfficeError;

verus! {

/// `std::io::Error`, the failure of the encoder or the decoder. Nothing
/// is claimed of it.
#[verifier::external_type_specification]
#[verifier::external_body]
pub struct ExIoError(std::io::Error);

/// What decompressing the bytes `bytes` with gzip gives: the data that
/// they hold, or nothing where they are not a gzip stream.
pub uninterp spec fn gunzip(bytes: Seq<u8>) -> Option<Seq<u8>>;

/// What compressing the data `data` with gzip gives: the bytes of the
/// stream, or nothing where the encoder fails.
pub uninterp spec fn gzip(data: Seq<u8>) -> Option<Seq<u8>>;

/// `flate2::write::GzEncoder` writes the data given to it as a gzip
/// stream into memory. The stream has a fixed header, without a time or
/// a name, so that it is what `gzip` names for the data; and
/// decompressing it gives the data back.
#[verifier::external_body]
fn gzip_encode(data: &[u8]) -> (res: Result<Vec<u8>, std::io::Error>)
    ensures
        match res {
            Ok(compressed) => gzip(data@) == Some(compressed@) && gunzip(compressed@) == Some(
                data@,
            ),
            Err(_) => gzip(data@) is None,
        },
{
    let mut encoder = flate2::write::GzEncoder::new(Vec::new(), flate2::Compression::default());
    std::io::Write::write_all(&mut encoder, data)?;
    encoder.finish()
}

/// `flate2::read::GzDecoder` reads the data that a gzip stream holds, and
/// fails on bytes that are no gzip stream.
#[verifier::external_body]
fn gzip_decode(data: &[u8]) -> (res: Result<Vec<u8>, std::io::Error>)
    ensures
        match res {
            Ok(plain) => gunzip(data@) == Some(plain@),
            Err(_) => gunzip(data@) is None,
        },
{
    let mut decoder = flate2::read::GzDecoder::new(data);
    let mut plain = Vec::new();
    std::io::Read::read_to_end(&mut decoder, &mut plain)?;
    Ok(plain)
}

/// The data `uncompressed_data`, compressed for the store: the gzip
/// stream of the data, from which `decompress_content` gives the data
/// back. Data for which the encoder fails is reported as a failure of the
/// codec.
pub fn compress_content(uncompressed_data: &[u8]) -> (res: Result<Vec<u8>, OfficeError>)
    ensures
        match res {
            Ok(compressed) => gzip(uncompressed_data@) == Some(compressed@) && gunzip(
                compressed@,
            ) == Some(uncompressed_data@),
            Err(e) => e == OfficeError::Codec && gzip(uncompressed_data@) is None,
        },
{
    match gzip_encode(uncompressed_data) {
        Ok(compressed) => Ok(compressed),
        Err(_) => Err(OfficeError::Codec),
    }
}

/// The data that the compressed bytes `compressed_data` hold. Bytes that
/// are no gzip stream are reported as a failure of the codec.
pub fn decompress_content(compressed_data: &[u8]) -> (res: Result<Vec<u8>, OfficeError>)
    ensures
        match gunzip(compressed_data@) {
            Some(plain) => res matches Ok(data) && data@ == plain,
            None => res matches Err(e) && e == OfficeError::Codec,
        },
{
    match gzip_decode(compressed_data) {
        Ok(plain) => Ok(plain),
        Err(_) => Err(OfficeError::Codec),
    }
}

} // verus!
