//! Finding one complete zlib-compressed object inside a byte window that
//! carries no size index: attempt decompression on growing prefixes until
//! one succeeds.

use vstd::prelude::*;
use vstd::slice::slice_to_vec;

verus! {

/// What standard zlib inflation yields on a byte sequence: the decompressed
/// bytes when inflation completes on it, and nothing when it fails. The
/// outcome depends on the input bytes alone.
pub uninterp spec fn inflate_result(data: Seq<u8>) -> Option<Seq<u8>>;

/// Relies on flate2::read::ZlibDecoder (the pure-Rust miniz_oxide backend)
/// driven by std::io::Read::read_to_end: inflation of a byte slice is
/// deterministic, completing when the slice begins with one whole
/// well-formed zlib stream and failing otherwise.
#[verifier::external_body]
fn zlib_inflate(data: &[u8]) -> (r: Option<Vec<u8>>)
    ensures
        match r {
            Some(out) => inflate_result(data@) == Some(out@),
            None => inflate_result(data@) is None,
        },
{
    let mut decoder = flate2::read::ZlibDecoder::new(data);
    let mut out = Vec::new();
    match std::io::Read::read_to_end(&mut decoder, &mut out) {
        Ok(_) => Some(out),
        Err(_) => None,
    }
}

/// One compressed object cut out of a pack stream, with its decompressed
/// contents.
#[derive(Clone, Debug)]
pub struct EntryData {
    pub compressed: Vec<u8>,
    pub uncompressed: Vec<u8>,
}

impl EntryData {
    /// Inflates `data` as one zlib stream; the entry keeps the input as its
    /// compressed form. `None` exactly when inflation fails on `data`.
    pub fn try_decode(data: &[u8]) -> (r: Option<EntryData>)
        ensures
            match r {
                Some(e) => {
                    &&& inflate_result(data@) == Some(e.uncompressed@)
                    &&& e.compressed@ == data@
                },
                None => inflate_result(data@) is None,
            },
    {
        match zlib_inflate(data) {
            Some(out) => Some(EntryData { compressed: slice_to_vec(data), uncompressed: out }),
            None => None,
        }
    }

    /// Searches for the shortest prefix of `data` that inflates as one
    /// complete zlib stream, growing the attempt one byte at a time; `None`
    /// when no prefix of the window works, which asks the caller to wait
    /// for more input.
    pub fn bruteforce_decode(data: &[u8]) -> (r: Option<EntryData>)
        ensures
            match r {
                Some(e) => {
                    &&& 1 <= e.compressed@.len() <= data@.len()
                    &&& e.compressed@ == data@.take(e.compressed@.len() as int)
                    &&& inflate_result(e.compressed@) == Some(e.uncompressed@)
                    &&& forall|j: int|
                        1 <= j < e.compressed@.len() ==> inflate_result(data@.take(j)) is None
                },
                None => forall|j: int|
                    1 <= j <= data@.len() ==> inflate_result(data@.take(j)) is None,
            },
    {
        let mut tried: usize = 0;
        while tried < data.len()
            invariant
                tried <= data@.len(),
                forall|j: int| 1 <= j <= tried ==> inflate_result(data@.take(j)) is None,
            decreases data@.len() - tried,
        {
            let num_bytes = tried + 1;
            let prefix: &[u8] = &data[0..num_bytes];
            assert(prefix@ == data@.take(num_bytes as int));
            match Self::try_decode(prefix) {
                Some(e) => {
                    return Some(e);
                },
                None => {
                    tried = num_bytes;
                },
            }
        }
        None
    }
}

} // verus!
