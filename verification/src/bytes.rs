use crate::error::Error;
use vstd::prelude::*;

verus! {

/// A read position inside an immutable byte buffer. The readers below
/// never move it past the end of the buffer.
pub struct Cursor {
    pub current_byte: usize,
}

/// The big-endian 32-bit value stored at `pos`.
pub open spec fn be32_at(s: Seq<u8>, pos: int) -> u32 {
    (s[pos] * 0x1000000 + s[pos + 1] * 0x10000 + s[pos + 2] * 0x100 + s[pos + 3]) as u32
}

/// Reads one byte and advances the cursor; fails with `UnexpectedEnd` when
/// no byte remains, leaving the cursor in place.
pub fn get_u8(cursor: &mut Cursor, data: &Vec<u8>) -> (r: Result<u8, Error>)
    requires
        old(cursor).current_byte <= data@.len(),
    ensures
        final(cursor).current_byte <= data@.len(),
        old(cursor).current_byte + 1 <= data@.len() ==> {
            &&& r matches Ok(n) && n == data@[old(cursor).current_byte as int]
            &&& final(cursor).current_byte == old(cursor).current_byte + 1
        },
        old(cursor).current_byte + 1 > data@.len() ==> {
            &&& r matches Err(Error::UnexpectedEnd)
            &&& final(cursor).current_byte == old(cursor).current_byte
        },
{
    if data.len() - cursor.current_byte < 1 {
        return Err(Error::UnexpectedEnd);
    }
    let n = data[cursor.current_byte];
    cursor.current_byte = cursor.current_byte + 1;
    Ok(n)
}

/// Reads a big-endian `u32` and advances the cursor; fails with
/// `UnexpectedEnd` when fewer than 4 bytes remain, leaving the cursor in
/// place.
pub fn get_u32(cursor: &mut Cursor, data: &Vec<u8>) -> (r: Result<u32, Error>)
    requires
        old(cursor).current_byte <= data@.len(),
    ensures
        final(cursor).current_byte <= data@.len(),
        old(cursor).current_byte + 4 <= data@.len() ==> {
            &&& r matches Ok(n) && n == be32_at(data@, old(cursor).current_byte as int)
            &&& final(cursor).current_byte == old(cursor).current_byte + 4
        },
        old(cursor).current_byte + 4 > data@.len() ==> {
            &&& r matches Err(Error::UnexpectedEnd)
            &&& final(cursor).current_byte == old(cursor).current_byte
        },
{
    if data.len() - cursor.current_byte < 4 {
        return Err(Error::UnexpectedEnd);
    }
    let b0 = data[cursor.current_byte];
    let b1 = data[cursor.current_byte + 1];
    let b2 = data[cursor.current_byte + 2];
    let b3 = data[cursor.current_byte + 3];
    cursor.current_byte = cursor.current_byte + 4;
    Ok((b0 as u32) * 0x1000000 + (b1 as u32) * 0x10000 + (b2 as u32) * 0x100 + (b3 as u32))
}

/// Copies `data[start .. start + len]` into a fresh vector.
pub fn copy_range(data: &Vec<u8>, start: usize, len: usize) -> (r: Vec<u8>)
    requires
        start + len <= data@.len(),
    ensures
        r@ == data@.subrange(start as int, start + len),
{
    let total = data.len();
    let mut out: Vec<u8> = Vec::new();
    let mut i: usize = 0;
    while i < len
        invariant
            start + len <= data@.len(),
            data@.len() <= usize::MAX,
            i <= len,
            out@ == data@.subrange(start as int, start + i),
        decreases len - i,
    {
        out.push(data[start + i]);
        assert(out@ == data@.subrange(start as int, start + i + 1));
        i = i + 1;
    }
    out
}

/// The concatenation of two byte vectors.
pub fn concat_bytes(a: &Vec<u8>, b: &Vec<u8>) -> (r: Vec<u8>)
    ensures
        r@ == a@ + b@,
{
    let mut out: Vec<u8> = Vec::new();
    let mut i: usize = 0;
    let a_len = a.len();
    let b_len = b.len();
    while i < a_len
        invariant
            a_len == a@.len(),
            i <= a_len,
            out@ == a@.subrange(0, i as int),
        decreases a_len - i,
    {
        out.push(a[i]);
        assert(out@ == a@.subrange(0, i + 1));
        i = i + 1;
    }
    assert(out@ =~= a@);
    let mut j: usize = 0;
    while j < b_len
        invariant
            b_len == b@.len(),
            j <= b_len,
            out@ == a@ + b@.subrange(0, j as int),
        decreases b_len - j,
    {
        out.push(b[j]);
        assert(out@ == a@ + b@.subrange(0, j + 1));
        j = j + 1;
    }
    assert(out@ =~= a@ + b@);
    out
}

/// Copies out the next `len` bytes and advances the cursor; fails with
/// `UnexpectedEnd` when fewer than `len` bytes remain, leaving the cursor
/// in place.
pub fn get_slice(cursor: &mut Cursor, data: &Vec<u8>, len: usize) -> (r: Result<Vec<u8>, Error>)
    requires
        old(cursor).current_byte <= data@.len(),
    ensures
        final(cursor).current_byte <= data@.len(),
        old(cursor).current_byte + len <= data@.len() ==> {
            &&& r matches Ok(v) && v@ == data@.subrange(
                old(cursor).current_byte as int,
                old(cursor).current_byte + len,
            )
            &&& final(cursor).current_byte == old(cursor).current_byte + len
        },
        old(cursor).current_byte + len > data@.len() ==> {
            &&& r matches Err(Error::UnexpectedEnd)
            &&& final(cursor).current_byte == old(cursor).current_byte
        },
{
    if data.len() - cursor.current_byte < len {
        return Err(Error::UnexpectedEnd);
    }
    let start = cursor.current_byte;
    let mut out: Vec<u8> = Vec::new();
    let mut i: usize = 0;
    while i < len
        invariant
            start + len <= data@.len(),
            data@.len() <= usize::MAX,
            i <= len,
            out@ == data@.subrange(start as int, start + i),
        decreases len - i,
    {
        out.push(data[start + i]);
        assert(out@ == data@.subrange(start as int, start + i + 1));
        i = i + 1;
    }
    cursor.current_byte = start + len;
    Ok(out)
}

} // verus!
