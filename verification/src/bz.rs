//! The streaming compressor behind the three patch sections.
//!
//! Compression is opaque to the rest of the library: `bz_of` names the
//! bytes the encoder produces for a given input and level, `unbz_of` names
//! what the decoder makes of a compressed byte string, and decoding an
//! encoder image is relied upon to give the encoded bytes back.

use crate::error::Error;
use vstd::prelude::*;

verus! {

/// The bytes that the bzip2 encoder emits for `data` at `level`: a pure
/// function of the two, left unstated.
pub uninterp spec fn bz_of(data: Seq<u8>, level: u32) -> Seq<u8>;

/// What the bzip2 decoder makes of a compressed byte string: the decoded
/// bytes, or nothing when the string is not one whole valid stream.  A
/// pure function of the bytes alone.
pub uninterp spec fn unbz_of(data: Seq<u8>) -> Option<Seq<u8>>;

/// The compressor's documented worst case: the output is at most one per
/// cent longer than the input, plus 600 bytes.
pub open spec fn compress_bound(len: int) -> int {
    len + len / 100 + 600
}

/// Relies on `bzip2::write::BzEncoder` over an in-memory buffer: writing a
/// byte string and finishing the stream yields a compressed image that is
/// a function of the bytes and the level alone, and is never longer than
/// the library's documented safe output size of the input plus one per
/// cent plus 600 bytes.  Levels outside `1..=9` are rejected by the
/// encoder's constructor.
#[verifier::external_body]
pub(crate) fn bz_compress(data: &[u8], level: u32) -> (r: Vec<u8>)
    requires
        1 <= level <= 9,
    ensures
        r@ == bz_of(data@, level),
        r@.len() <= compress_bound(data@.len() as int),
{
    let mut enc = bzip2::write::BzEncoder::new(Vec::new(), bzip2::Compression::new(level));
    std::io::Write::write_all(&mut enc, data).unwrap();
    enc.finish().unwrap()
}

/// Relies on `bzip2::read::BzDecoder`: what reading a compressed byte
/// string to its end yields — the decoded bytes, or an error — depends on
/// those bytes alone, and reading an exact image of the encoder returns
/// exactly the bytes the encoder was given.
#[verifier::external_body]
pub(crate) fn bz_decompress(data: &[u8]) -> (r: Result<Vec<u8>, Error>)
    ensures
        r is Ok ==> unbz_of(data@) == Some(r->Ok_0@),
        r is Err ==> unbz_of(data@) is None,
        r is Err ==> r->Err_0 == Error::InvalidData,
        forall|d: Seq<u8>, level: u32|
            data@ == bz_of(d, level) ==> r is Ok && r->Ok_0@ == d && unbz_of(data@) == Some(
                r->Ok_0@,
            ),
{
    let mut dec = bzip2::read::BzDecoder::new(data);
    let mut out = Vec::new();
    match std::io::Read::read_to_end(&mut dec, &mut out) {
        Ok(_) => Ok(out),
        Err(_) => Err(Error::InvalidData),
    }
}

} // verus!
