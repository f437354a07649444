use vstd::prelude::*;

use crate::errors::Error;

verus! {

/// What raw-deflate decompression makes of a byte sequence: the
/// decompressed bytes, or `None` when the sequence is no complete
/// deflate stream. Decompression is a function of the input bytes
/// alone; its definition is the deflate format itself and is not
/// restated here.
pub uninterp spec fn inflate_of(s: Seq<u8>) -> Option<Seq<u8>>;

/// Relies on flate2's `bufread::DeflateDecoder` and `Read::read_to_end`:
/// raw-deflate decompression of the input bytes, a function of those
/// bytes alone, reported as an error when the stream is malformed or
/// incomplete. Trailing bytes after the deflate stream are ignored, as
/// the decoder stops at its end.
#[verifier::external_body]
pub(crate) fn inflate(bytes: &[u8]) -> (r: Result<Vec<u8>, Error>)
    ensures
        match r {
            Ok(v) => inflate_of(bytes@) == Some(v@),
            Err(e) => inflate_of(bytes@) is None && e == Error::CorruptedPackfile,
        },
{
    let mut decoder = flate2::bufread::DeflateDecoder::new(bytes);
    let mut out: Vec<u8> = Vec::new();
    match std::io::Read::read_to_end(&mut decoder, &mut out) {
        Ok(_) => Ok(out),
        Err(_) => Err(Error::CorruptedPackfile),
    }
}

} // verus!
