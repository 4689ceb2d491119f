use crate::error::Error;
use vstd::prelude::*;

verus! {

/// The per-row scanline filter of the restricted PNG profile. The filter
/// was applied before compression and must be undone, byte by byte, to
/// recover the true pixel bytes.
#[derive(Debug, Clone, Copy, PartialEq, Eq, Structural)]
pub enum FilterType {
    NoFilter,
    Sub,
    Up,
    Average,
    Paeth,
}

/// The filter type a scanline's leading byte selects. Meaningful for
/// bytes 0 through 4 only; larger bytes are rejected by `from_byte`.
pub open spec fn spec_filter_type(v: u8) -> FilterType {
    if v == 0 {
        FilterType::NoFilter
    } else if v == 1 {
        FilterType::Sub
    } else if v == 2 {
        FilterType::Up
    } else if v == 3 {
        FilterType::Average
    } else {
        FilterType::Paeth
    }
}

impl FilterType {
    /// Decodes a scanline's filter-type byte; bytes above 4 fail with
    /// `InvalidFilterType`.
    pub fn from_byte(v: u8) -> (r: Result<FilterType, Error>)
        ensures
            v <= 4 ==> (r matches Ok(ft) && ft == spec_filter_type(v)),
            v > 4 ==> r matches Err(Error::InvalidFilterType),
    {
        if v == 0 {
            Ok(FilterType::NoFilter)
        } else if v == 1 {
            Ok(FilterType::Sub)
        } else if v == 2 {
            Ok(FilterType::Up)
        } else if v == 3 {
            Ok(FilterType::Average)
        } else if v == 4 {
            Ok(FilterType::Paeth)
        } else {
            Err(Error::InvalidFilterType)
        }
    }
}

/// The absolute value of a mathematical integer.
pub open spec fn abs_int(x: int) -> int {
    if x >= 0 {
        x
    } else {
        -x
    }
}

/// The Paeth predictor: whichever of `a` (left), `b` (above), `c`
/// (above-left) deviates least from the true predictor `a + b - c`,
/// preferring `a` on a tie with `b`, then `b` on a tie with `c`.
pub open spec fn paeth_pred(a: int, b: int, c: int) -> int {
    let p = a + b - c;
    let pa = abs_int(p - a);
    let pb = abs_int(p - b);
    let pc = abs_int(p - c);
    if pa <= pb && pa <= pc {
        a
    } else if pb <= pc {
        b
    } else {
        c
    }
}

/// The value a filter type predicts from the three reconstructed
/// neighbors; reconstruction adds it back, filtering subtracts it.
pub open spec fn predictor(ft: FilterType, a: u8, b: u8, c: u8) -> int {
    match ft {
        FilterType::NoFilter => 0,
        FilterType::Sub => a as int,
        FilterType::Up => b as int,
        FilterType::Average => (a + b) / 2,
        FilterType::Paeth => paeth_pred(a as int, b as int, c as int),
    }
}

/// Every predictor stays within one byte.
pub proof fn lemma_predictor_range(ft: FilterType, a: u8, b: u8, c: u8)
    ensures
        0 <= predictor(ft, a, b, c) <= 255,
{
}

/// One reconstructed byte: the filtered byte plus the predictor, modulo
/// 256.
pub open spec fn recon_byte(ft: FilterType, fx: u8, a: u8, b: u8, c: u8) -> u8 {
    ((fx + predictor(ft, a, b, c)) % 256) as u8
}

/// One re-filtered byte: the raw byte minus the predictor, modulo 256.
pub open spec fn filter_byte(ft: FilterType, rx: u8, a: u8, b: u8, c: u8) -> u8 {
    ((rx + 256 - predictor(ft, a, b, c)) % 256) as u8
}

/// The left neighbor `a` of byte `x`: the byte 4 positions earlier in the
/// same reconstructed row (4 bytes per RGBA pixel), or 0 in the first
/// pixel.
pub open spec fn left_nb(row_out: Seq<u8>, x: int) -> u8 {
    if x >= 4 {
        row_out[x - 4]
    } else {
        0u8
    }
}

/// The above neighbor `b` of byte `x`: the byte directly above in the
/// previously reconstructed output `prev`, or 0 in the first row.
pub open spec fn up_nb(prev: Seq<u8>, row_len: int, x: int) -> u8 {
    if prev.len() >= row_len {
        prev[prev.len() - row_len + x]
    } else {
        0u8
    }
}

/// The above-left neighbor `c` of byte `x`, or 0 where either neighbor
/// direction is missing.
pub open spec fn upleft_nb(prev: Seq<u8>, row_len: int, x: int) -> u8 {
    if x >= 4 && prev.len() >= row_len {
        prev[prev.len() - row_len + x - 4]
    } else {
        0u8
    }
}

/// The first `x` reconstructed bytes of one scanline. `prev` is the whole
/// reconstructed output of the earlier rows and `row` the filtered bytes
/// of this row; each byte may depend on bytes of this row already
/// reconstructed and on the row above.
pub open spec fn recon_upto(prev: Seq<u8>, row: Seq<u8>, ft: FilterType, x: int) -> Seq<u8>
    decreases x,
{
    if x <= 0 {
        Seq::empty()
    } else {
        let done = recon_upto(prev, row, ft, x - 1);
        done.push(
            recon_byte(
                ft,
                row[x - 1],
                left_nb(done, x - 1),
                up_nb(prev, row.len() as int, x - 1),
                upleft_nb(prev, row.len() as int, x - 1),
            ),
        )
    }
}

/// One whole reconstructed scanline.
pub open spec fn recon_row(prev: Seq<u8>, row: Seq<u8>, ft: FilterType) -> Seq<u8> {
    recon_upto(prev, row, ft, row.len() as int)
}

/// A reconstructed prefix has exactly the asked-for length.
pub proof fn lemma_recon_upto_len(prev: Seq<u8>, row: Seq<u8>, ft: FilterType, x: int)
    requires
        0 <= x,
    ensures
        recon_upto(prev, row, ft, x).len() == x,
    decreases x,
{
    if x > 0 {
        lemma_recon_upto_len(prev, row, ft, x - 1);
    }
}

/// A shorter reconstructed prefix is a prefix of a longer one.
pub proof fn lemma_recon_upto_prefix(prev: Seq<u8>, row: Seq<u8>, ft: FilterType, x1: int, x2: int)
    requires
        0 <= x1 <= x2,
    ensures
        recon_upto(prev, row, ft, x1) == recon_upto(prev, row, ft, x2).subrange(0, x1),
    decreases x2 - x1,
{
    lemma_recon_upto_len(prev, row, ft, x1);
    lemma_recon_upto_len(prev, row, ft, x2);
    if x2 == x1 {
        assert(recon_upto(prev, row, ft, x1) =~= recon_upto(prev, row, ft, x2).subrange(0, x1));
    } else {
        lemma_recon_upto_prefix(prev, row, ft, x1, x2 - 1);
        lemma_recon_upto_len(prev, row, ft, x2 - 1);
        assert(recon_upto(prev, row, ft, x2 - 1).subrange(0, x1) =~= recon_upto(
            prev,
            row,
            ft,
            x2,
        ).subrange(0, x1));
    }
}

/// Undoes one scanline's filter, appending the reconstructed bytes to
/// `output_img`, which already holds all earlier rows. The filtered bytes
/// of the row are `encoded[row_start .. row_start + row_len]`.
pub fn decode_filter(
    output_img: &mut Vec<u8>,
    encoded: &Vec<u8>,
    row_start: usize,
    row_len: usize,
    filter_type: FilterType,
)
    requires
        row_start + row_len <= encoded@.len(),
    ensures
        final(output_img)@ == old(output_img)@ + recon_row(
            old(output_img)@,
            encoded@.subrange(row_start as int, row_start + row_len),
            filter_type,
        ),
{
    let ghost prev = output_img@;
    let ghost row_seq = encoded@.subrange(row_start as int, row_start + row_len);
    let encoded_len = encoded.len();
    let base = output_img.len();
    let mut x: usize = 0;
    proof {
        lemma_recon_upto_len(prev, row_seq, filter_type, 0);
        assert(output_img@ =~= prev + recon_upto(prev, row_seq, filter_type, 0));
    }
    while x < row_len
        invariant
            row_start + row_len <= encoded_len,
            encoded_len == encoded@.len(),
            row_seq == encoded@.subrange(row_start as int, row_start + row_len),
            base == prev.len(),
            x <= row_len,
            row_len == row_seq.len(),
            output_img@ == prev + recon_upto(prev, row_seq, filter_type, x as int),
            output_img@.len() == base + x,
        decreases row_len - x,
    {
        let cur_len = output_img.len();
        let a: u8 = if x >= 4 {
            output_img[cur_len - 4]
        } else {
            0
        };
        let b: u8 = if base >= row_len {
            output_img[cur_len - row_len]
        } else {
            0
        };
        let c: u8 = if x >= 4 && base >= row_len {
            output_img[cur_len - row_len - 4]
        } else {
            0
        };
        proof {
            lemma_recon_upto_len(prev, row_seq, filter_type, x as int);
            assert(a == left_nb(recon_upto(prev, row_seq, filter_type, x as int), x as int));
            assert(b == up_nb(prev, row_seq.len() as int, x as int));
            assert(c == upleft_nb(prev, row_seq.len() as int, x as int));
        }
        let pred: u8 = match filter_type {
            FilterType::NoFilter => 0,
            FilterType::Sub => a,
            FilterType::Up => b,
            FilterType::Average => (((a as u16) + (b as u16)) / 2) as u8,
            FilterType::Paeth => paeth(a as i16, b as i16, c as i16),
        };
        assert(pred == predictor(filter_type, a, b, c));
        let v: u8 = (((encoded[row_start + x] as u16) + (pred as u16)) % 256) as u8;
        assert(v == recon_byte(filter_type, row_seq[x as int], a, b, c));
        output_img.push(v);
        proof {
            assert(output_img@ =~= prev + recon_upto(prev, row_seq, filter_type, x + 1));
        }
        x = x + 1;
    }
}

/// The Paeth predictor on three reconstructed neighbor bytes.
pub fn paeth(a: i16, b: i16, c: i16) -> (r: u8)
    requires
        0 <= a <= 255,
        0 <= b <= 255,
        0 <= c <= 255,
    ensures
        r == paeth_pred(a as int, b as int, c as int),
{
    let p = a + b - c;
    let pa = if p >= a {
        p - a
    } else {
        a - p
    };
    let pb = if p >= b {
        p - b
    } else {
        b - p
    };
    let pc = if p >= c {
        p - c
    } else {
        c - p
    };
    if pa <= pb && pa <= pc {
        a as u8
    } else if pb <= pc {
        b as u8
    } else {
        c as u8
    }
}

/// One whole re-filtered scanline: what the encoder would emit for the
/// raw row `raw_row` under filter `ft`, with neighbors taken from the raw
/// bytes of this row and of `prev`, the raw rows before it.
pub open spec fn filter_row(prev: Seq<u8>, raw_row: Seq<u8>, ft: FilterType) -> Seq<u8> {
    Seq::new(
        raw_row.len(),
        |x: int|
            filter_byte(
                ft,
                raw_row[x],
                left_nb(raw_row, x),
                up_nb(prev, raw_row.len() as int, x),
                upleft_nb(prev, raw_row.len() as int, x),
            ),
    )
}

/// Applies one scanline's filter, the inverse of `decode_filter`: reads
/// the raw row `raw[row_start .. row_start + row_len]` with its neighbors
/// from `raw` and returns the filtered bytes.
pub fn encode_filter(raw: &Vec<u8>, row_start: usize, row_len: usize, ft: FilterType) -> (r: Vec<
    u8,
>)
    requires
        row_start + row_len <= raw@.len(),
    ensures
        r@ == filter_row(
            raw@.subrange(0, row_start as int),
            raw@.subrange(row_start as int, row_start + row_len),
            ft,
        ),
{
    let ghost prev = raw@.subrange(0, row_start as int);
    let ghost row_seq = raw@.subrange(row_start as int, row_start + row_len);
    let raw_len = raw.len();
    let mut out: Vec<u8> = Vec::new();
    let mut x: usize = 0;
    while x < row_len
        invariant
            row_start + row_len <= raw_len,
            raw_len == raw@.len(),
            prev == raw@.subrange(0, row_start as int),
            row_seq == raw@.subrange(row_start as int, row_start + row_len),
            x <= row_len,
            row_len == row_seq.len(),
            out@ == filter_row(prev, row_seq, ft).subrange(0, x as int),
        decreases row_len - x,
    {
        let a: u8 = if x >= 4 {
            raw[row_start + x - 4]
        } else {
            0
        };
        let b: u8 = if row_start >= row_len {
            raw[row_start - row_len + x]
        } else {
            0
        };
        let c: u8 = if x >= 4 && row_start >= row_len {
            raw[row_start - row_len + x - 4]
        } else {
            0
        };
        proof {
            assert(a == left_nb(row_seq, x as int));
            assert(b == up_nb(prev, row_seq.len() as int, x as int));
            assert(c == upleft_nb(prev, row_seq.len() as int, x as int));
        }
        let pred: u8 = match ft {
            FilterType::NoFilter => 0,
            FilterType::Sub => a,
            FilterType::Up => b,
            FilterType::Average => (((a as u16) + (b as u16)) / 2) as u8,
            FilterType::Paeth => paeth(a as i16, b as i16, c as i16),
        };
        assert(pred == predictor(ft, a, b, c));
        let v: u8 = (((raw[row_start + x] as u16) + 256 - (pred as u16)) % 256) as u8;
        assert(v == filter_byte(ft, row_seq[x as int], a, b, c));
        out.push(v);
        proof {
            assert(out@ =~= filter_row(prev, row_seq, ft).subrange(0, x + 1));
        }
        x = x + 1;
    }
    proof {
        assert(out@ =~= filter_row(prev, row_seq, ft));
    }
    out
}

/// Law: for every filter type, re-filtering a reconstructed byte with the
/// same neighbors reproduces the filtered byte exactly.
pub proof fn lemma_filter_byte_round_trip(ft: FilterType, fx: u8, a: u8, b: u8, c: u8)
    ensures
        filter_byte(ft, recon_byte(ft, fx, a, b, c), a, b, c) == fx,
{
    lemma_predictor_range(ft, a, b, c);
    let p = predictor(ft, a, b, c);
    let r = (fx + p) % 256;
    assert(r == recon_byte(ft, fx, a, b, c));
    if fx + p < 256 {
        assert(r == fx + p);
        assert((fx + p + 256 - p) % 256 == fx);
    } else {
        assert(r == fx + p - 256);
        assert((fx + p - 256 + 256 - p) % 256 == fx);
    }
}

/// Law: unfiltering a scanline and then re-filtering it with the same
/// filter type reproduces the original filtered bytes exactly.
pub proof fn lemma_row_round_trip(prev: Seq<u8>, row: Seq<u8>, ft: FilterType)
    ensures
        filter_row(prev, recon_row(prev, row, ft), ft) == row,
{
    let rr = recon_row(prev, row, ft);
    lemma_recon_upto_len(prev, row, ft, row.len() as int);
    assert forall|x: int| 0 <= x < row.len() implies filter_row(prev, rr, ft)[x] == row[x] by {
        lemma_recon_upto_prefix(prev, row, ft, x + 1, row.len() as int);
        lemma_recon_upto_len(prev, row, ft, x + 1);
        lemma_recon_upto_len(prev, row, ft, x);
        let done = recon_upto(prev, row, ft, x);
        let stepped = recon_upto(prev, row, ft, x + 1);
        let v = recon_byte(
            ft,
            row[x],
            left_nb(done, x),
            up_nb(prev, row.len() as int, x),
            upleft_nb(prev, row.len() as int, x),
        );
        assert(stepped == done.push(v));
        assert(stepped[x] == v);
        assert(stepped == rr.subrange(0, x + 1));
        assert(rr[x] == v);
        if x >= 4 {
            lemma_recon_upto_prefix(prev, row, ft, x, row.len() as int);
            assert(done[x - 4] == rr[x - 4]);
        }
        assert(left_nb(done, x) == left_nb(rr, x));
        lemma_filter_byte_round_trip(
            ft,
            row[x],
            left_nb(rr, x),
            up_nb(prev, row.len() as int, x),
            upleft_nb(prev, row.len() as int, x),
        );
    }
    assert(filter_row(prev, rr, ft) =~= row);
}

} // verus!
