use crate::bytes::{concat_bytes, Cursor};
use crate::chunks::{
    chunk_step, ihdr_tag, iend_tag, kind_of_tag, lemma_chunk_step_local, lemma_chunk_step_next,
    parse_block, parse_magic, signature_at, Chunk, ChunkKind, ChunkStep, Ihdr,
};
use crate::compress::{inflate, inflate_of};
use crate::error::Error;
use crate::filter::{decode_filter, recon_row, spec_filter_type, FilterType};
use vstd::prelude::*;

verus! {

/// A decoded image: its header and the reconstructed pixel bytes, 4 per
/// pixel in (R, G, B, A) order, row-major.
pub struct Png {
    pub header: Ihdr,
    pub img_data: Vec<u8>,
}

/// How many bytes one reconstructed scanline holds: 4 channel bytes per
/// pixel.
pub open spec fn row_bytes(h: Ihdr) -> nat {
    (h.width * 4) as nat
}

/// The one profile this decoder accepts: 8-bit RGBA, not interlaced.
pub open spec fn header_supported(h: Ihdr) -> bool {
    h.color_type == 6 && h.bit_depth == 8 && h.interlace_method == 0
}

/// Walking the chunk stream from `pos` with the image-data payloads
/// collected so far in `acc`: stops at the end chunk, appends every
/// image-data payload in file order, and keeps every other chunk
/// opaquely; fails with the first chunk parse failure.
pub open spec fn collect_idat(s: Seq<u8>, pos: int, acc: Seq<u8>, has: bool) -> Result<
    (Seq<u8>, bool),
    Error,
>
    decreases s.len() - pos,
    via collect_idat_dec
{
    match chunk_step(s, pos) {
        ChunkStep::Bad(e) => Err(e),
        ChunkStep::Good(m) => {
            if m.tag == iend_tag() {
                Ok((acc, has))
            } else if m.tag == crate::chunks::idat_tag() {
                collect_idat(s, m.next, acc + m.payload, true)
            } else {
                collect_idat(s, m.next, acc, has)
            }
        },
    }
}

#[via_fn]
proof fn collect_idat_dec(s: Seq<u8>, pos: int, acc: Seq<u8>, has: bool) {
    match chunk_step(s, pos) {
        ChunkStep::Bad(_) => {},
        ChunkStep::Good(m) => {
            if m.tag != iend_tag() {
                lemma_chunk_step_next(s, pos);
            }
        },
    }
}

/// Undoing the scanline filters of the whole decompressed stream `s`
/// from `pos` on, with the rows reconstructed so far in `out`: each row
/// is one filter-type byte followed by `row_len` filtered bytes; a
/// filter byte above 4 fails with `InvalidFilterType`, a short row with
/// `UnexpectedEnd`.
pub open spec fn unfilter(s: Seq<u8>, row_len: nat, pos: int, out: Seq<u8>) -> Result<
    Seq<u8>,
    Error,
>
    decreases s.len() - pos,
{
    if pos < 0 || pos >= s.len() {
        Ok(out)
    } else {
        let f = s[pos];
        if f > 4 {
            Err(Error::InvalidFilterType)
        } else if pos + 1 + row_len > s.len() {
            Err(Error::UnexpectedEnd)
        } else {
            unfilter(
                s,
                row_len,
                pos + 1 + row_len,
                out + recon_row(out, s.subrange(pos + 1, pos + 1 + row_len), spec_filter_type(f)),
            )
        }
    }
}

/// Unfiltering appends whole scanlines, so where the row length is a
/// whole number of pixels, the reconstructed bytes are too.
pub proof fn lemma_unfilter_whole_pixels(s: Seq<u8>, row_len: nat, pos: int, out: Seq<u8>)
    requires
        unfilter(s, row_len, pos, out) is Ok,
        row_len % 4 == 0,
        out.len() % 4 == 0,
    ensures
        unfilter(s, row_len, pos, out)->Ok_0.len() % 4 == 0,
    decreases s.len() - pos,
{
    if 0 <= pos < s.len() {
        let f = s[pos];
        let row = s.subrange(pos + 1, pos + 1 + row_len);
        let grown = out + recon_row(out, row, spec_filter_type(f));
        crate::filter::lemma_recon_upto_len(out, row, spec_filter_type(f), row.len() as int);
        assert(grown.len() % 4 == 0) by (nonlinear_arith)
            requires
                grown.len() == out.len() + row_len,
                out.len() % 4 == 0,
                row_len % 4 == 0,
        ;
        lemma_unfilter_whole_pixels(s, row_len, pos + 1 + row_len, grown);
    }
}

/// Law: a successful decode yields a whole number of 4-byte pixels —
/// exactly what the texture materializer asks of its input.
pub proof fn lemma_decode_whole_pixels(s: Seq<u8>)
    requires
        decode_model(s) is Ok,
    ensures
        decode_model(s)->Ok_0.1.len() % 4 == 0,
{
    let m = chunk_step(s, 8)->Good_0;
    let h = crate::chunks::ihdr_of(m.payload);
    assert(row_bytes(h) % 4 == 0) by (nonlinear_arith)
        requires
            row_bytes(h) == (h.width * 4) as nat,
    ;
    let collected = collect_idat(s, m.next, Seq::empty(), false)->Ok_0;
    let z = inflate_of(collected.0)->Some_0;
    lemma_unfilter_whole_pixels(z, row_bytes(h), 0, Seq::empty());
}

/// What decoding a whole file yields: the header and the reconstructed
/// pixel bytes, or the first typed failure. This is the complete
/// mathematical description of `Png::decode`.
pub open spec fn decode_model(s: Seq<u8>) -> Result<(Ihdr, Seq<u8>), Error> {
    if !signature_at(s, 0) {
        Err(Error::BadSignature)
    } else {
        match chunk_step(s, 8) {
            ChunkStep::Bad(e) => Err(e),
            ChunkStep::Good(m) => {
                if m.tag != ihdr_tag() {
                    Err(Error::MissingHeader)
                } else {
                    let h = crate::chunks::ihdr_of(m.payload);
                    if !header_supported(h) {
                        Err(Error::UnsupportedFormat)
                    } else {
                        match collect_idat(s, m.next, Seq::empty(), false) {
                            Err(e) => Err(e),
                            Ok(collected) => {
                                if !collected.1 {
                                    Err(Error::NoImageData)
                                } else {
                                    match inflate_of(collected.0) {
                                        Option::None => Err(Error::DecompressionFailed),
                                        Option::Some(z) => match unfilter(
                                            z,
                                            row_bytes(h),
                                            0,
                                            Seq::empty(),
                                        ) {
                                            Err(e) => Err(e),
                                            Ok(img) => Ok((h, img)),
                                        },
                                    }
                                }
                            },
                        }
                    }
                }
            },
        }
    }
}

/// Inflates the concatenated image-data payloads; an error from the
/// decompressor surfaces as `DecompressionFailed`.
fn decompress_img_data(idat: &Vec<u8>) -> (r: Result<Vec<u8>, Error>)
    ensures
        r matches Ok(v) ==> inflate_of(idat@) == Some(v@),
        r matches Err(e) ==> inflate_of(idat@) is None && e == Error::DecompressionFailed,
{
    match inflate(idat) {
        Ok(v) => Ok(v),
        Err(_) => Err(Error::DecompressionFailed),
    }
}

impl Png {
    /// Decodes a whole PNG file held in memory: verifies the signature,
    /// parses and checksums every chunk, demands a supported header
    /// first, inflates the concatenated image-data payloads and undoes
    /// the per-row filters. Returns exactly what `decode_model` says,
    /// for every input.
    #[verifier::loop_isolation(false)]
    pub fn decode(data: &Vec<u8>) -> (r: Result<Png, Error>)
        ensures
            r matches Ok(p) ==> decode_model(data@) == Ok::<(Ihdr, Seq<u8>), Error>(
                (p.header, p.img_data@),
            ),
            r matches Err(e) ==> decode_model(data@) == Err::<(Ihdr, Seq<u8>), Error>(e),
    {
        let mut cursor = Cursor { current_byte: 0 };
        match parse_magic(&mut cursor, data) {
            Ok(_) => {},
            Err(e) => { return Err(e) },
        }
        let first = match parse_block(&mut cursor, data) {
            Ok(c) => c,
            Err(e) => { return Err(e) },
        };
        let header = match first.kind {
            ChunkKind::Header(h) => h,
            _ => { return Err(Error::MissingHeader) },
        };
        if header.color_type != 6 || header.bit_depth != 8 {
            return Err(Error::UnsupportedFormat);
        }
        if header.interlace_method != 0 {
            return Err(Error::UnsupportedFormat);
        }
        let ghost after_header = cursor.current_byte as int;
        let mut idat_buf: Vec<u8> = Vec::new();
        let mut has_idat = false;
        let mut end_seen = false;
        while !end_seen
            invariant
                cursor.current_byte <= data@.len(),
                !end_seen ==> collect_idat(data@, after_header, Seq::empty(), false)
                    == collect_idat(data@, cursor.current_byte as int, idat_buf@, has_idat),
                end_seen ==> collect_idat(data@, after_header, Seq::empty(), false) == Ok::<
                    (Seq<u8>, bool),
                    Error,
                >((idat_buf@, has_idat)),
            decreases data@.len() - cursor.current_byte,
        {
            let ghost pos_before = cursor.current_byte as int;
            let chunk = match parse_block(&mut cursor, data) {
                Ok(c) => c,
                Err(e) => { return Err(e) },
            };
            proof {
                lemma_chunk_step_next(data@, pos_before);
            }
            match chunk.kind {
                ChunkKind::End => { end_seen = true },
                ChunkKind::ImageData => {
                    let grown = concat_bytes(&idat_buf, &chunk.payload);
                    idat_buf = grown;
                    has_idat = true;
                },
                _ => {},
            }
        }
        if !has_idat {
            return Err(Error::NoImageData);
        }
        let z = match decompress_img_data(&idat_buf) {
            Ok(v) => v,
            Err(e) => { return Err(e) },
        };
        let row_len64: u64 = header.width as u64 * 4;
        let z_len = z.len();
        let mut raw_img: Vec<u8> = Vec::new();
        let mut pos: usize = 0;
        while pos != z_len
            invariant
                pos <= z_len,
                unfilter(z@, row_bytes(header), 0, Seq::empty()) == unfilter(
                    z@,
                    row_bytes(header),
                    pos as int,
                    raw_img@,
                ),
            decreases z@.len() - pos,
        {
            let f_byte = z[pos];
            let ft = match FilterType::from_byte(f_byte) {
                Ok(ft) => ft,
                Err(e) => { return Err(e) },
            };
            if ((z_len - pos - 1) as u64) < row_len64 {
                return Err(Error::UnexpectedEnd);
            }
            let row_len = row_len64 as usize;
            decode_filter(&mut raw_img, &z, pos + 1, row_len, ft);
            pos = pos + 1 + row_len;
        }
        Ok(Png { header, img_data: raw_img })
    }
}

/// Where the chunk walk that starts at `pos` ends: the first position
/// past the end chunk's stored checksum, or `pos` itself where the walk
/// fails before reaching an end chunk.
pub open spec fn walk_end(s: Seq<u8>, pos: int) -> int
    decreases s.len() - pos,
    via walk_end_dec
{
    match chunk_step(s, pos) {
        ChunkStep::Bad(_) => pos,
        ChunkStep::Good(m) => {
            if m.tag == iend_tag() {
                m.next
            } else {
                walk_end(s, m.next)
            }
        },
    }
}

#[via_fn]
proof fn walk_end_dec(s: Seq<u8>, pos: int) {
    match chunk_step(s, pos) {
        ChunkStep::Bad(_) => {},
        ChunkStep::Good(m) => {
            if m.tag != iend_tag() {
                lemma_chunk_step_next(s, pos);
            }
        },
    }
}

/// A chunk walk that reaches an end chunk covers at least one whole
/// chunk and stays inside the stream.
pub proof fn lemma_walk_end_bound(s: Seq<u8>, pos: int, acc: Seq<u8>, has: bool)
    requires
        collect_idat(s, pos, acc, has) is Ok,
    ensures
        pos + 12 <= walk_end(s, pos) <= s.len(),
    decreases s.len() - pos,
{
    let m = chunk_step(s, pos)->Good_0;
    lemma_chunk_step_next(s, pos);
    if m.tag != iend_tag() {
        if m.tag == crate::chunks::idat_tag() {
            lemma_walk_end_bound(s, m.next, acc + m.payload, true);
        } else {
            lemma_walk_end_bound(s, m.next, acc, has);
        }
    }
}

/// Law: altering the stored checksum that closes a chunk walk — the
/// end chunk's CRC-32 — while leaving every other byte alone makes the
/// walk fail with `ChecksumFailed` instead of completing.
pub proof fn lemma_collect_checksum_corruption(
    s: Seq<u8>,
    t: Seq<u8>,
    pos: int,
    acc: Seq<u8>,
    has: bool,
)
    requires
        0 <= pos,
        collect_idat(s, pos, acc, has) is Ok,
        t.len() == s.len(),
        forall|i: int|
            0 <= i < s.len() && !(walk_end(s, pos) - 4 <= i < walk_end(s, pos)) ==> t[i] == s[i],
        t.subrange(walk_end(s, pos) - 4, walk_end(s, pos)) != s.subrange(
            walk_end(s, pos) - 4,
            walk_end(s, pos),
        ),
    ensures
        collect_idat(t, pos, acc, has) == Err::<(Seq<u8>, bool), Error>(Error::ChecksumFailed),
    decreases s.len() - pos,
{
    let m = chunk_step(s, pos)->Good_0;
    lemma_chunk_step_next(s, pos);
    if m.tag == iend_tag() {
        crate::chunks::lemma_checksum_corruption(s, t, pos);
    } else {
        let acc2 = if m.tag == crate::chunks::idat_tag() {
            acc + m.payload
        } else {
            acc
        };
        let has2 = if m.tag == crate::chunks::idat_tag() {
            true
        } else {
            has
        };
        lemma_walk_end_bound(s, m.next, acc2, has2);
        lemma_chunk_step_local(s, t, pos);
        lemma_collect_checksum_corruption(s, t, m.next, acc2, has2);
    }
}

/// The first position past the last chunk's stored checksum: where the
/// chunk walk that follows the header chunk ends.
pub open spec fn last_checksum_end(s: Seq<u8>) -> int {
    walk_end(s, chunk_step(s, 8)->Good_0.next)
}

/// Law: take any file that decodes successfully and flip any bit — in
/// fact change any byte — of the last chunk's stored checksum, leaving
/// the rest of the file alone: the file now fails with
/// `ChecksumFailed`, never silently decodes.
pub proof fn lemma_decode_checksum_corruption(s: Seq<u8>, t: Seq<u8>)
    requires
        decode_model(s) is Ok,
        t.len() == s.len(),
        forall|i: int|
            0 <= i < s.len() && !(last_checksum_end(s) - 4 <= i < last_checksum_end(s)) ==> t[i]
                == s[i],
        t.subrange(last_checksum_end(s) - 4, last_checksum_end(s)) != s.subrange(
            last_checksum_end(s) - 4,
            last_checksum_end(s),
        ),
    ensures
        decode_model(t) == Err::<(Ihdr, Seq<u8>), Error>(Error::ChecksumFailed),
{
    let hm = chunk_step(s, 8)->Good_0;
    lemma_chunk_step_next(s, 8);
    lemma_walk_end_bound(s, hm.next, Seq::empty(), false);
    assert(t.subrange(0, 8) =~= s.subrange(0, 8));
    assert(signature_at(t, 0));
    lemma_chunk_step_local(s, t, 8);
    lemma_collect_checksum_corruption(s, t, hm.next, Seq::empty(), false);
}

/// Law: a file that does not open with the 8-byte magic signature
/// decodes to `BadSignature` and nothing else.
pub proof fn lemma_decode_bad_signature(s: Seq<u8>)
    requires
        !signature_at(s, 0),
    ensures
        decode_model(s) == Err::<(Ihdr, Seq<u8>), Error>(Error::BadSignature),
{
}

/// Law: take any file with a valid signature and alter any single one
/// of its first 8 bytes: the file now fails with `BadSignature`.
pub proof fn lemma_decode_signature_corruption(s: Seq<u8>, t: Seq<u8>, i: int)
    requires
        signature_at(s, 0),
        0 <= i < 8,
        t[i] != s[i],
    ensures
        decode_model(t) == Err::<(Ihdr, Seq<u8>), Error>(Error::BadSignature),
{
    crate::chunks::lemma_signature_corruption(s, t, i);
    lemma_decode_bad_signature(t);
}

} // verus!
