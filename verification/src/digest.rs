//! Content digests and compression.

use vstd::prelude::*;

use std::io::Write;
use sha2::Digest;

verus! {

/// The SHA-256 digest that `sha2::Sha256::digest` computes of the bytes.
pub uninterp spec fn sha256(data: Seq<u8>) -> Seq<u8>;

/// The gzip stream that `flate2` makes of the bytes at its default level.
pub uninterp spec fn gzipped(data: Seq<u8>) -> Seq<u8>;

/// The digit of a hexadecimal place, in lower case.
pub open spec fn hex_digit(n: int) -> char {
    if n < 10 {
        (48 + n) as char
    } else {
        (87 + n) as char
    }
}

/// The bytes in hexadecimal, two digits each.
pub open spec fn hex_text(data: Seq<u8>) -> Seq<char>
    decreases data.len(),
{
    if data.len() == 0 {
        Seq::empty()
    } else {
        hex_text(data.drop_last()).push(hex_digit(data.last() as int / 16)).push(
            hex_digit(data.last() as int % 16),
        )
    }
}

/// The digest of the bytes as text.
pub open spec fn sha256_text(data: Seq<u8>) -> Seq<char> {
    hex_text(sha256(data))
}

/// `sha2::Sha256::digest`: the digest, 32 bytes, of the bytes alone.
#[verifier::external_body]
fn digest_bytes(data: &[u8]) -> (r: Vec<u8>)
    ensures
        r@ == sha256(data@),
        r@.len() == 32,
{
    sha2::Sha256::digest(data).to_vec()
}

/// `hex::encode`: two hexadecimal digits in lower case for each byte.
#[verifier::external_body]
fn hex_encode(data: &[u8]) -> (r: String)
    ensures
        r@ == hex_text(data@),
{
    hex::encode(data)
}

/// `flate2::write::GzEncoder` over a vector, at the default level: the stream
/// depends on the bytes alone. It never fails: a vector takes whatever is
/// written to it, and the encoder errs only where it is fed once it is finished.
#[verifier::external_body]
pub(crate) fn gzip(data: &[u8]) -> (r: Result<Vec<u8>, String>)
    ensures
        match r {
            Ok(stream) => stream@ == gzipped(data@),
            Err(_) => false,
        },
{
    let mut enc = flate2::write::GzEncoder::new(Vec::new(), flate2::Compression::default());
    enc.write_all(data).map_err(|e| e.to_string())?;
    enc.finish().map_err(|e| e.to_string())
}

/// The SHA-256 digest of the bytes, in hexadecimal.
pub fn sha256_hex(data: &[u8]) -> (r: String)
    ensures
        r@ == sha256_text(data@),
{
    hex_encode(digest_bytes(data).as_slice())
}

} // verus!
