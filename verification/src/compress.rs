use vstd::prelude::*;

verus! {

/// What inflating a zlib-wrapped deflate stream yields: `Some` with the
/// full decompressed bytes when the stream is well formed, `None` when
/// the decompressor reports an error. The outcome is a function of the
/// input bytes alone.
pub uninterp spec fn inflate_of(data: Seq<u8>) -> Option<Seq<u8>>;

/// Relies on `flate2::read::ZlibDecoder`: reading it to the end yields
/// the whole decompressed stream of a zlib-wrapped deflate stream, or an
/// error for corrupt or truncated input; the outcome depends on the
/// input bytes alone.
#[verifier::external_body]
pub(crate) fn inflate(data: &Vec<u8>) -> (r: Result<Vec<u8>, String>)
    ensures
        r is Ok <==> inflate_of(data@) is Some,
        r matches Ok(v) ==> inflate_of(data@) == Some(v@),
{
    let mut decoder = flate2::read::ZlibDecoder::new(data.as_slice());
    let mut out: Vec<u8> = Vec::new();
    match std::io::Read::read_to_end(&mut decoder, &mut out) {
        Ok(_) => Ok(out),
        Err(e) => Err(e.to_string()),
    }
}

} // verus!
