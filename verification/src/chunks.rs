use crate::bytes::{be32_at, concat_bytes, copy_range, get_slice, get_u32, get_u8, Cursor};
use crate::checksum::{crc32, crc32_of};
use crate::error::{BlockKind, Error};
use vstd::prelude::*;

verus! {

/// The fixed 8-byte magic signature that opens every PNG file.
pub open spec fn png_magic() -> Seq<u8> {
    seq![0x89u8, 0x50u8, 0x4eu8, 0x47u8, 0x0du8, 0x0au8, 0x1au8, 0x0au8]
}

/// Whether the 8 bytes at `pos` are the PNG magic signature.
pub open spec fn signature_at(s: Seq<u8>, pos: int) -> bool {
    pos + 8 <= s.len() && s.subrange(pos, pos + 8) == png_magic()
}

/// The 4-byte type tag of an image-header chunk.
pub open spec fn ihdr_tag() -> Seq<u8> {
    seq![0x49u8, 0x48u8, 0x44u8, 0x52u8]
}

/// The 4-byte type tag of an image-data chunk.
pub open spec fn idat_tag() -> Seq<u8> {
    seq![0x49u8, 0x44u8, 0x41u8, 0x54u8]
}

/// The 4-byte type tag of an end chunk.
pub open spec fn iend_tag() -> Seq<u8> {
    seq![0x49u8, 0x45u8, 0x4eu8, 0x44u8]
}

/// The image header: dimensions and the format fields that decide
/// whether this decoder supports the file at all.
#[derive(Debug, Clone, Copy, PartialEq, Eq, Structural)]
pub struct Ihdr {
    pub width: u32,
    pub height: u32,
    pub bit_depth: u8,
    pub color_type: u8,
    pub compression_method: u8,
    pub filter_method: u8,
    pub interlace_method: u8,
}

/// The header described by a 13-byte image-header payload.
pub open spec fn ihdr_of(payload: Seq<u8>) -> Ihdr
    recommends
        payload.len() == 13,
{
    Ihdr {
        width: be32_at(payload, 0),
        height: be32_at(payload, 4),
        bit_depth: payload[8],
        color_type: payload[9],
        compression_method: payload[10],
        filter_method: payload[11],
        interlace_method: payload[12],
    }
}

/// What a chunk's type tag makes of it: the header chunk is parsed, the
/// end chunk closes the file, image-data chunks carry compressed bytes,
/// and unrecognized chunks are retained opaquely.
pub enum ChunkKind {
    Header(Ihdr),
    End,
    ImageData,
    Unknown,
}

/// The kind a tag and payload decode to.
pub open spec fn kind_of_tag(tag: Seq<u8>, payload: Seq<u8>) -> ChunkKind {
    if tag == ihdr_tag() {
        ChunkKind::Header(ihdr_of(payload))
    } else if tag == iend_tag() {
        ChunkKind::End
    } else if tag == idat_tag() {
        ChunkKind::ImageData
    } else {
        ChunkKind::Unknown
    }
}

/// One parsed chunk: declared length, 4-byte type tag, payload bytes,
/// the declared checksum (verified against the payload on parse), and
/// the decoded kind.
pub struct Chunk {
    pub length: u32,
    pub type_tag: Vec<u8>,
    pub payload: Vec<u8>,
    pub checksum: u32,
    pub kind: ChunkKind,
}

/// The mathematical image of one well-formed chunk in the byte stream.
pub ghost struct ChunkModel {
    pub declared_len: int,
    pub tag: Seq<u8>,
    pub payload: Seq<u8>,
    pub checksum: u32,
    pub next: int,
}

/// The outcome of parsing one chunk at a given position.
pub ghost enum ChunkStep {
    Good(ChunkModel),
    Bad(Error),
}

/// How many payload bytes the chunk occupies, after its per-kind
/// validation: the header chunk always occupies 13 bytes and demands a
/// declared length of 13; the end chunk demands an empty payload; any
/// other chunk occupies its declared length.
pub open spec fn payload_take(s: Seq<u8>, pos: int, clen: int, tag: Seq<u8>) -> Result<int, Error> {
    if tag == ihdr_tag() {
        if pos + 8 + 13 > s.len() {
            Err(Error::UnexpectedEnd)
        } else if clen != 13 {
            Err(Error::IncompleteBlock { kind: BlockKind::Header })
        } else {
            Ok(13)
        }
    } else if tag == iend_tag() {
        if clen != 0 {
            Err(Error::IncompleteBlock { kind: BlockKind::End })
        } else {
            Ok(0)
        }
    } else {
        if pos + 8 + clen > s.len() {
            Err(Error::UnexpectedEnd)
        } else {
            Ok(clen)
        }
    }
}

/// Parsing one chunk at `pos`: a big-endian length, a 4-byte tag, the
/// validated payload, and a big-endian CRC-32 that must match the
/// checksum of tag and payload together.
pub open spec fn chunk_step(s: Seq<u8>, pos: int) -> ChunkStep {
    if pos + 8 > s.len() {
        ChunkStep::Bad(Error::UnexpectedEnd)
    } else {
        let clen = be32_at(s, pos) as int;
        let tag = s.subrange(pos + 4, pos + 8);
        match payload_take(s, pos, clen, tag) {
            Err(e) => ChunkStep::Bad(e),
            Ok(consumed) => {
                let pend = pos + 8 + consumed;
                if pend + 4 > s.len() {
                    ChunkStep::Bad(Error::UnexpectedEnd)
                } else {
                    let payload = s.subrange(pos + 8, pend);
                    let stored = be32_at(s, pend);
                    if crc32_of(tag + payload) != stored {
                        ChunkStep::Bad(Error::ChecksumFailed)
                    } else {
                        ChunkStep::Good(
                            ChunkModel {
                                declared_len: clen,
                                tag,
                                payload,
                                checksum: stored,
                                next: pend + 4,
                            },
                        )
                    }
                }
            },
        }
    }
}

/// Verifies the fixed 8-byte magic signature; fails with `BadSignature`
/// on mismatch or truncation, leaving the cursor in place.
pub fn parse_magic(cursor: &mut Cursor, data: &Vec<u8>) -> (r: Result<(), Error>)
    requires
        old(cursor).current_byte <= data@.len(),
    ensures
        final(cursor).current_byte <= data@.len(),
        signature_at(data@, old(cursor).current_byte as int) ==> {
            &&& r is Ok
            &&& final(cursor).current_byte == old(cursor).current_byte + 8
        },
        !signature_at(data@, old(cursor).current_byte as int) ==> {
            &&& r matches Err(Error::BadSignature)
            &&& final(cursor).current_byte == old(cursor).current_byte
        },
{
    let start = cursor.current_byte;
    let ghost pos = start as int;
    if data.len() - start < 8 {
        return Err(Error::BadSignature);
    }
    let matches_magic = data[start] == 0x89 && data[start + 1] == 0x50 && data[start + 2] == 0x4e
        && data[start + 3] == 0x47 && data[start + 4] == 0x0d && data[start + 5] == 0x0a
        && data[start + 6] == 0x1a && data[start + 7] == 0x0a;
    proof {
        let sig = data@.subrange(pos, pos + 8);
        assert(sig[0] == data@[pos] && sig[1] == data@[pos + 1] && sig[2] == data@[pos + 2]
            && sig[3] == data@[pos + 3] && sig[4] == data@[pos + 4] && sig[5] == data@[pos + 5]
            && sig[6] == data@[pos + 6] && sig[7] == data@[pos + 7]);
        if matches_magic {
            assert(sig =~= png_magic());
        }
    }
    if matches_magic {
        cursor.current_byte = start + 8;
        Ok(())
    } else {
        Err(Error::BadSignature)
    }
}

/// Parses the 13-byte payload of the image-header chunk. Reads the
/// fields first, as the byte stream offers them, then rejects a declared
/// length other than 13 with `IncompleteBlock`.
pub fn parse_ihdr(cursor: &mut Cursor, data: &Vec<u8>, expected_len: usize) -> (r: Result<
    Ihdr,
    Error,
>)
    requires
        old(cursor).current_byte <= data@.len(),
    ensures
        final(cursor).current_byte <= data@.len(),
        old(cursor).current_byte + 13 > data@.len() ==> r matches Err(Error::UnexpectedEnd),
        old(cursor).current_byte + 13 <= data@.len() && expected_len != 13 ==> r matches Err(
            Error::IncompleteBlock { kind: BlockKind::Header },
        ),
        old(cursor).current_byte + 13 <= data@.len() && expected_len == 13 ==> {
            &&& r matches Ok(h) && h == ihdr_of(
                data@.subrange(
                    old(cursor).current_byte as int,
                    old(cursor).current_byte + 13,
                ),
            )
            &&& final(cursor).current_byte == old(cursor).current_byte + 13
        },
{
    let ghost pos = old(cursor).current_byte as int;
    let width = match get_u32(cursor, data) {
        Ok(v) => v,
        Err(e) => { return Err(e) },
    };
    let height = match get_u32(cursor, data) {
        Ok(v) => v,
        Err(e) => { return Err(e) },
    };
    let bit_depth = match get_u8(cursor, data) {
        Ok(v) => v,
        Err(e) => { return Err(e) },
    };
    let color_type = match get_u8(cursor, data) {
        Ok(v) => v,
        Err(e) => { return Err(e) },
    };
    let compression_method = match get_u8(cursor, data) {
        Ok(v) => v,
        Err(e) => { return Err(e) },
    };
    let filter_method = match get_u8(cursor, data) {
        Ok(v) => v,
        Err(e) => { return Err(e) },
    };
    let interlace_method = match get_u8(cursor, data) {
        Ok(v) => v,
        Err(e) => { return Err(e) },
    };
    if expected_len != 13 {
        return Err(Error::IncompleteBlock { kind: BlockKind::Header });
    }
    proof {
        let payload = data@.subrange(pos, pos + 13);
        assert(payload[8] == data@[pos + 8] && payload[9] == data@[pos + 9] && payload[10]
            == data@[pos + 10] && payload[11] == data@[pos + 11] && payload[12] == data@[pos + 12]);
        assert(be32_at(payload, 0) == be32_at(data@, pos)) by {
            assert(payload[0] == data@[pos] && payload[1] == data@[pos + 1]);
            assert(payload[2] == data@[pos + 2] && payload[3] == data@[pos + 3]);
        }
        assert(be32_at(payload, 4) == be32_at(data@, pos + 4)) by {
            assert(payload[4] == data@[pos + 4] && payload[5] == data@[pos + 5] && payload[6]
                == data@[pos + 6] && payload[7] == data@[pos + 7]);
        }
    }
    Ok(
        Ihdr {
            width,
            height,
            bit_depth,
            color_type,
            compression_method,
            filter_method,
            interlace_method,
        },
    )
}

/// Validates the end chunk, whose payload must be empty; a nonzero
/// declared length fails with `IncompleteBlock`.
pub fn parse_iend(expected_len: usize) -> (r: Result<(), Error>)
    ensures
        expected_len == 0 ==> r is Ok,
        expected_len != 0 ==> r matches Err(Error::IncompleteBlock { kind: BlockKind::End }),
{
    if expected_len != 0 {
        return Err(Error::IncompleteBlock { kind: BlockKind::End });
    }
    Ok(())
}

/// Copies out the payload of an image-data chunk.
pub fn parse_idat(cursor: &mut Cursor, data: &Vec<u8>, expected_len: usize) -> (r: Result<
    Vec<u8>,
    Error,
>)
    requires
        old(cursor).current_byte <= data@.len(),
    ensures
        final(cursor).current_byte <= data@.len(),
        old(cursor).current_byte + expected_len <= data@.len() ==> {
            &&& r matches Ok(v) && v@ == data@.subrange(
                old(cursor).current_byte as int,
                old(cursor).current_byte + expected_len,
            )
            &&& final(cursor).current_byte == old(cursor).current_byte + expected_len
        },
        old(cursor).current_byte + expected_len > data@.len() ==> {
            &&& r matches Err(Error::UnexpectedEnd)
            &&& final(cursor).current_byte == old(cursor).current_byte
        },
{
    get_slice(cursor, data, expected_len)
}

/// Parses one whole chunk at the cursor: length, tag, validated payload
/// and checksum. The recomputed CRC-32 of tag and payload must equal the
/// declared checksum, else the parse fails with `ChecksumFailed`. The
/// result and the new cursor position are exactly those of `chunk_step`.
pub fn parse_block(cursor: &mut Cursor, data: &Vec<u8>) -> (r: Result<Chunk, Error>)
    requires
        old(cursor).current_byte <= data@.len(),
    ensures
        final(cursor).current_byte <= data@.len(),
        r matches Ok(chunk) ==> {
            &&& chunk_step(data@, old(cursor).current_byte as int) matches ChunkStep::Good(m)
            &&& chunk.length == m.declared_len
            &&& chunk.type_tag@ == m.tag
            &&& chunk.payload@ == m.payload
            &&& chunk.checksum == m.checksum
            &&& chunk.kind == kind_of_tag(m.tag, m.payload)
            &&& final(cursor).current_byte == m.next
        },
        r matches Err(e) ==> chunk_step(data@, old(cursor).current_byte as int)
            == ChunkStep::Bad(e),
{
    let ghost pos = old(cursor).current_byte as int;
    let len32 = match get_u32(cursor, data) {
        Ok(v) => v,
        Err(e) => { return Err(e) },
    };
    let len = len32 as usize;
    let type_tag = match get_slice(cursor, data, 4) {
        Ok(v) => v,
        Err(e) => { return Err(e) },
    };
    let ghost tag = data@.subrange(pos + 4, pos + 8);
    let is_ihdr = type_tag[0] == 0x49 && type_tag[1] == 0x48 && type_tag[2] == 0x44 && type_tag[3]
        == 0x52;
    let is_iend = type_tag[0] == 0x49 && type_tag[1] == 0x45 && type_tag[2] == 0x4e && type_tag[3]
        == 0x44;
    let is_idat = type_tag[0] == 0x49 && type_tag[1] == 0x44 && type_tag[2] == 0x41 && type_tag[3]
        == 0x54;
    proof {
        assert(type_tag@ == tag);
        assert(tag[0] == type_tag@[0] && tag[1] == type_tag@[1] && tag[2] == type_tag@[2] && tag[3]
            == type_tag@[3]);
        if is_ihdr {
            assert(tag =~= ihdr_tag());
        }
        if is_iend {
            assert(tag =~= iend_tag());
        }
        if is_idat {
            assert(tag =~= idat_tag());
        }
        if tag == ihdr_tag() {
            assert(tag[0] == 0x49 && tag[1] == 0x48 && tag[2] == 0x44 && tag[3] == 0x52);
        }
        if tag == iend_tag() {
            assert(tag[0] == 0x49 && tag[1] == 0x45 && tag[2] == 0x4e && tag[3] == 0x44);
        }
        if tag == idat_tag() {
            assert(tag[0] == 0x49 && tag[1] == 0x44 && tag[2] == 0x41 && tag[3] == 0x54);
        }
    }
    let ghost start = pos + 8;
    let (payload, kind) = if is_ihdr {
        let header_start = cursor.current_byte;
        let header = match parse_ihdr(cursor, data, len) {
            Ok(v) => v,
            Err(e) => { return Err(e) },
        };
        let payload = copy_range(data, header_start, 13);
        (payload, ChunkKind::Header(header))
    } else if is_iend {
        match parse_iend(len) {
            Ok(v) => v,
            Err(e) => { return Err(e) },
        };
        (Vec::new(), ChunkKind::End)
    } else {
        let payload = match parse_idat(cursor, data, len) {
            Ok(v) => v,
            Err(e) => { return Err(e) },
        };
        let kind = if is_idat {
            ChunkKind::ImageData
        } else {
            ChunkKind::Unknown
        };
        (payload, kind)
    };
    proof {
        assert(payload_take(data@, pos, len32 as int, tag) == Ok::<int, Error>(
            payload@.len() as int,
        ));
        assert(payload@ =~= data@.subrange(start, start + payload@.len()));
    }
    let stored = match get_u32(cursor, data) {
        Ok(v) => v,
        Err(e) => { return Err(e) },
    };
    let crc_buf = concat_bytes(&type_tag, &payload);
    let computed = crc32(&crc_buf);
    if computed != stored {
        return Err(Error::ChecksumFailed);
    }
    Ok(Chunk { length: len32, type_tag, payload, checksum: stored, kind })
}

/// A successfully parsed chunk starts a new chunk at least 12 bytes
/// further on and never past the end of the stream.
pub proof fn lemma_chunk_step_next(s: Seq<u8>, pos: int)
    requires
        chunk_step(s, pos) is Good,
    ensures
        pos + 12 <= chunk_step(s, pos)->Good_0.next <= s.len(),
{
}

/// Parsing one chunk reads only the bytes it occupies: two streams of
/// one length that agree on them parse it identically.
pub proof fn lemma_chunk_step_local(s: Seq<u8>, t: Seq<u8>, pos: int)
    requires
        0 <= pos,
        chunk_step(s, pos) is Good,
        t.len() == s.len(),
        forall|i: int| pos <= i < chunk_step(s, pos)->Good_0.next ==> t[i] == s[i],
    ensures
        chunk_step(t, pos) == chunk_step(s, pos),
{
    let m = chunk_step(s, pos)->Good_0;
    lemma_chunk_step_next(s, pos);
    assert(be32_at(t, pos) == be32_at(s, pos));
    let clen = be32_at(s, pos) as int;
    assert(t.subrange(pos + 4, pos + 8) =~= s.subrange(pos + 4, pos + 8));
    let tag = s.subrange(pos + 4, pos + 8);
    assert(payload_take(t, pos, clen, tag) == payload_take(s, pos, clen, tag));
    let consumed = payload_take(s, pos, clen, tag)->Ok_0;
    let pend = pos + 8 + consumed;
    assert(t.subrange(pos + 8, pend) =~= s.subrange(pos + 8, pend));
    assert(be32_at(t, pend) == be32_at(s, pend));
}

/// Law: corrupting any single byte of a valid signature makes the
/// signature check fail; the decoder then reports `BadSignature`.
pub proof fn lemma_signature_corruption(s: Seq<u8>, t: Seq<u8>, i: int)
    requires
        signature_at(s, 0),
        0 <= i < 8,
        t[i] != s[i],
    ensures
        !signature_at(t, 0),
{
    if signature_at(t, 0) {
        assert(t.subrange(0, 8)[i] == s.subrange(0, 8)[i]);
    }
}

/// The big-endian 32-bit value determines its four bytes.
pub proof fn lemma_be32_injective(b0: u8, b1: u8, b2: u8, b3: u8, c0: u8, c1: u8, c2: u8, c3: u8)
    requires
        b0 * 0x1000000 + b1 * 0x10000 + b2 * 0x100 + b3 == c0 * 0x1000000 + c1 * 0x10000 + c2
            * 0x100 + c3,
    ensures
        b0 == c0 && b1 == c1 && b2 == c2 && b3 == c3,
{
    assert(b0 == c0 && b1 == c1 && b2 == c2 && b3 == c3) by (bit_vector)
        requires
            b0 * 0x1000000 + b1 * 0x10000 + b2 * 0x100 + b3 == c0 * 0x1000000 + c1 * 0x10000 + c2
                * 0x100 + c3,
    ;
}

/// Law: altering the stored checksum bytes of a chunk that parsed
/// successfully, while leaving the rest of the stream alone, makes that
/// chunk fail with `ChecksumFailed` — a corrupted chunk never parses
/// silently.
pub proof fn lemma_checksum_corruption(s: Seq<u8>, t: Seq<u8>, pos: int)
    requires
        0 <= pos,
        chunk_step(s, pos) is Good,
        t.len() == s.len(),
        forall|i: int|
            0 <= i < s.len() && !(chunk_step(s, pos)->Good_0.next - 4 <= i < chunk_step(
                s,
                pos,
            )->Good_0.next) ==> t[i] == s[i],
        t.subrange(chunk_step(s, pos)->Good_0.next - 4, chunk_step(s, pos)->Good_0.next)
            != s.subrange(chunk_step(s, pos)->Good_0.next - 4, chunk_step(s, pos)->Good_0.next),
    ensures
        chunk_step(t, pos) == ChunkStep::Bad(Error::ChecksumFailed),
{
    let m = chunk_step(s, pos)->Good_0;
    let pend = m.next - 4;
    assert(pos + 8 <= s.len());
    assert(be32_at(t, pos) == be32_at(s, pos));
    let clen = be32_at(s, pos) as int;
    assert(t.subrange(pos + 4, pos + 8) =~= s.subrange(pos + 4, pos + 8));
    let tag = s.subrange(pos + 4, pos + 8);
    assert(payload_take(t, pos, clen, tag) == payload_take(s, pos, clen, tag));
    let consumed = payload_take(s, pos, clen, tag)->Ok_0;
    assert(pend == pos + 8 + consumed);
    assert(t.subrange(pos + 8, pend) =~= s.subrange(pos + 8, pend));
    let payload = s.subrange(pos + 8, pend);
    assert(crc32_of(tag + payload) == m.checksum);
    assert(be32_at(t, pend) != be32_at(s, pend)) by {
        let su = s.subrange(pend, pend + 4);
        let tu = t.subrange(pend, pend + 4);
        if be32_at(t, pend) == be32_at(s, pend) {
            lemma_be32_injective(
                t[pend],
                t[pend + 1],
                t[pend + 2],
                t[pend + 3],
                s[pend],
                s[pend + 1],
                s[pend + 2],
                s[pend + 3],
            );
            assert(tu =~= su);
        }
    }
}

} // verus!
