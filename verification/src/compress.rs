//! gzip compression of rotated files, as flate2 writes it.
use vstd::prelude::*;
use std::io::Write;

verus! {

/// The gzip stream (best compression, blank header) that flate2's
/// `GzEncoder` writes for `data`.
pub uninterp spec fn gzip_best(data: Seq<u8>) -> Seq<u8>;

/// flate2's `GzEncoder::new(.., Compression::best())` fed `data` and
/// finished, into memory. Taken on trust: the result is a function of
/// `data`, named `gzip_best`: the header's time field is 0 and its system
/// byte fixed, so nothing else goes into it. Writing into a `Vec` does not
/// fail.
#[verifier::external_body]
fn gzip_compress(data: &[u8]) -> (r: Vec<u8>)
    ensures
        r@ == gzip_best(data@),
{
    let mut e = flate2::write::GzEncoder::new(Vec::new(), flate2::Compression::best());
    let _ = e.write_all(data);
    e.finish().unwrap_or_default()
}

/// The content of the compressed copy of a file whose content is `data`.
pub fn compress_file(data: &[u8]) -> (r: Vec<u8>)
    ensures
        r@ == gzip_best(data@),
{
    gzip_compress(data)
}

} // verus!
