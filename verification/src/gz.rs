//! The one outside call of the library: whole-body gzip compression.
use vstd::prelude::*;
use std::io::Write;

verus! {

/// The gzip encoding that flate2 produces for `data` at the default level.
pub uninterp spec fn gzip_of(data: Seq<u8>) -> Seq<u8>;

/// Relies on flate2's `write::GzEncoder` with `Compression::default()`:
/// single-shot gzip of the whole buffer. Its header is fixed (zero mtime,
/// operating-system byte 255 — flate2 sets it so for reproducible streams)
/// and DEFLATE is deterministic, so the result is a function of the input
/// bytes alone. Writing into a `Vec` sink cannot fail.
#[verifier::external_body]
pub(crate) fn gzip_compress(data: &Vec<u8>) -> (r: Vec<u8>)
    ensures
        r@ == gzip_of(data@),
{
    let mut enc = flate2::write::GzEncoder::new(Vec::new(), flate2::Compression::default());
    let _ = enc.write_all(data.as_slice());
    match enc.finish() {
        Ok(v) => v,
        Err(_) => Vec::new(),
    }
}

} // verus!
