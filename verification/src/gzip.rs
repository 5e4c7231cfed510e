//! Unpacking of gzip streams.
//!
//! The unpacking is that of the `flate2` crate. What it makes of a stream is not
//! described here: it has a name, [`gunzip`], and the function that calls the crate
//! states, without proof, that it returns what the name stands for.
use flate2::read::GzDecoder;
use std::io::Read;
use vstd::prelude::*;

verus! {

/// What unpacking makes of a gzip stream: the bytes that were packed, or `None`
/// where the stream is broken.
pub uninterp spec fn gunzip(packed: Seq<u8>) -> Option<Seq<u8>>;

/// Calls `GzDecoder::new` of `flate2` on `packed` and reads the decoder to its end:
/// the unpacked bytes, or the error on which reading stopped.
#[verifier::external_body]
pub(crate) fn unpack(packed: &[u8]) -> (r: Result<Vec<u8>, std::io::Error>)
    ensures
        match r {
            Ok(bytes) => gunzip(packed@) == Some(bytes@),
            Err(_) => gunzip(packed@) is None,
        },
{
    let mut bytes = Vec::new();
    match GzDecoder::new(packed).read_to_end(&mut bytes) {
        Ok(_) => Ok(bytes),
        Err(e) => Err(e),
    }
}

} // verus!
