use png_raster::decode::Png;
use png_raster::error::{BlockKind, Error};
use png_raster::filter::{decode_filter, encode_filter, FilterType};
use png_raster::texture::Texture;
use std::io::Write;

fn chunk(tag: &[u8; 4], payload: &[u8]) -> Vec<u8> {
    let mut out = Vec::new();
    out.extend_from_slice(&(payload.len() as u32).to_be_bytes());
    out.extend_from_slice(tag);
    out.extend_from_slice(payload);
    let mut crc_input = tag.to_vec();
    crc_input.extend_from_slice(payload);
    out.extend_from_slice(&crc32fast::hash(&crc_input).to_be_bytes());
    out
}

fn ihdr_payload(w: u32, h: u32, bit_depth: u8, color_type: u8, interlace: u8) -> Vec<u8> {
    let mut p = Vec::new();
    p.extend_from_slice(&w.to_be_bytes());
    p.extend_from_slice(&h.to_be_bytes());
    p.push(bit_depth);
    p.push(color_type);
    p.push(0);
    p.push(0);
    p.push(interlace);
    p
}

fn zlib(data: &[u8]) -> Vec<u8> {
    let mut enc = flate2::write::ZlibEncoder::new(Vec::new(), flate2::Compression::default());
    enc.write_all(data).unwrap();
    enc.finish().unwrap()
}

fn signature() -> Vec<u8> {
    vec![0x89, b'P', b'N', b'G', 0x0d, 0x0a, 0x1a, 0x0a]
}

fn png_file(w: u32, h: u32, filtered_rows: &[u8]) -> Vec<u8> {
    let mut f = signature();
    f.extend_from_slice(&chunk(b"IHDR", &ihdr_payload(w, h, 8, 6, 0)));
    f.extend_from_slice(&chunk(b"IDAT", &zlib(filtered_rows)));
    f.extend_from_slice(&chunk(b"IEND", &[]));
    f
}

#[test]
fn decode_minimal_white_pixel() {
    let file = png_file(1, 1, &[0, 255, 255, 255, 255]);
    let png = Png::decode(&file).unwrap();
    assert_eq!(png.header.width, 1);
    assert_eq!(png.header.height, 1);
    assert_eq!(png.img_data, vec![255u8, 255, 255, 255]);
    let tex = Texture::from_png(png);
    assert_eq!(tex.width, 1);
    assert_eq!(tex.height, 1);
    assert_eq!(tex.bitmap, vec![0xffffffffu32]);
}

#[test]
fn texture_decode_is_decode_then_materialize() {
    let file = png_file(1, 2, &[0, 1, 2, 3, 4, 0, 5, 6, 7, 8]);
    let tex = Texture::decode(&file).unwrap();
    assert_eq!(tex.width, 1);
    assert_eq!(tex.height, 2);
    assert_eq!(tex.bitmap, vec![0x04010203u32, 0x08050607]);
    assert_eq!(tex.pos.x, 0);
    assert_eq!(tex.pos.y, 0);
    let bad = signature();
    assert!(matches!(Texture::decode(&bad), Err(Error::UnexpectedEnd)));
}

#[test]
fn decode_packs_channels_in_bgr_order_under_alpha() {
    // One pixel with distinct channels: R=0x11, G=0x22, B=0x33, A=0x44.
    let file = png_file(1, 1, &[0, 0x11, 0x22, 0x33, 0x44]);
    let png = Png::decode(&file).unwrap();
    let tex = Texture::from_png(png);
    assert_eq!(tex.bitmap, vec![0x44112233u32]);
}

#[test]
fn bad_signature_at_every_position() {
    let file = png_file(1, 1, &[0, 255, 255, 255, 255]);
    for i in 0..8 {
        let mut corrupt = file.clone();
        corrupt[i] ^= 0x01;
        assert!(matches!(Png::decode(&corrupt), Err(Error::BadSignature)));
        let mut corrupt2 = file.clone();
        corrupt2[i] = corrupt2[i].wrapping_add(17);
        assert!(matches!(Png::decode(&corrupt2), Err(Error::BadSignature)));
    }
}

#[test]
fn truncated_signature_is_bad_signature() {
    let file = signature();
    let short = file[..5].to_vec();
    assert!(matches!(Png::decode(&short), Err(Error::BadSignature)));
}

#[test]
fn flipped_last_chunk_checksum_fails() {
    let mut file = png_file(1, 1, &[0, 255, 255, 255, 255]);
    // The last 4 bytes are the end chunk's stored CRC-32; flip one bit.
    let last = file.len() - 1;
    file[last] ^= 0x01;
    assert!(matches!(Png::decode(&file), Err(Error::ChecksumFailed)));
}

#[test]
fn corrupted_payload_fails_checksum() {
    let mut file = png_file(1, 1, &[0, 255, 255, 255, 255]);
    // Corrupt one byte inside the header chunk payload (width field).
    file[8 + 8 + 3] ^= 0xff;
    assert!(matches!(Png::decode(&file), Err(Error::ChecksumFailed)));
}

#[test]
fn truncated_chunk_is_unexpected_end() {
    let file = png_file(1, 1, &[0, 255, 255, 255, 255]);
    let short = file[..file.len() - 2].to_vec();
    assert!(matches!(Png::decode(&short), Err(Error::UnexpectedEnd)));
}

#[test]
fn first_chunk_must_be_header() {
    let mut f = signature();
    f.extend_from_slice(&chunk(b"IDAT", &zlib(&[0, 255, 255, 255, 255])));
    f.extend_from_slice(&chunk(b"IEND", &[]));
    assert!(matches!(Png::decode(&f), Err(Error::MissingHeader)));
}

#[test]
fn header_with_wrong_length_is_incomplete_block() {
    let mut f = signature();
    let mut payload = ihdr_payload(1, 1, 8, 6, 0);
    payload.push(0);  // 14 bytes: one too many
    f.extend_from_slice(&chunk(b"IHDR", &payload));
    f.extend_from_slice(&chunk(b"IEND", &[]));
    assert!(matches!(
        Png::decode(&f),
        Err(Error::IncompleteBlock { kind: BlockKind::Header })
    ));
}

#[test]
fn end_chunk_with_payload_is_incomplete_block() {
    let mut f = signature();
    f.extend_from_slice(&chunk(b"IHDR", &ihdr_payload(1, 1, 8, 6, 0)));
    f.extend_from_slice(&chunk(b"IDAT", &zlib(&[0, 255, 255, 255, 255])));
    f.extend_from_slice(&chunk(b"IEND", &[7]));
    assert!(matches!(
        Png::decode(&f),
        Err(Error::IncompleteBlock { kind: BlockKind::End })
    ));
}

#[test]
fn no_image_data_chunk() {
    let mut f = signature();
    f.extend_from_slice(&chunk(b"IHDR", &ihdr_payload(1, 1, 8, 6, 0)));
    f.extend_from_slice(&chunk(b"IEND", &[]));
    assert!(matches!(Png::decode(&f), Err(Error::NoImageData)));
}

#[test]
fn garbage_image_data_fails_decompression() {
    let mut f = signature();
    f.extend_from_slice(&chunk(b"IHDR", &ihdr_payload(1, 1, 8, 6, 0)));
    f.extend_from_slice(&chunk(b"IDAT", &[1, 2, 3]));
    f.extend_from_slice(&chunk(b"IEND", &[]));
    assert!(matches!(Png::decode(&f), Err(Error::DecompressionFailed)));
}

#[test]
fn non_rgba_color_type_is_unsupported() {
    let mut f = signature();
    f.extend_from_slice(&chunk(b"IHDR", &ihdr_payload(1, 1, 8, 2, 0)));
    f.extend_from_slice(&chunk(b"IDAT", &zlib(&[0, 255, 255, 255])));
    f.extend_from_slice(&chunk(b"IEND", &[]));
    assert!(matches!(Png::decode(&f), Err(Error::UnsupportedFormat)));
}

#[test]
fn sixteen_bit_depth_is_unsupported() {
    let mut f = signature();
    f.extend_from_slice(&chunk(b"IHDR", &ihdr_payload(1, 1, 16, 6, 0)));
    f.extend_from_slice(&chunk(b"IDAT", &zlib(&[0, 255, 255, 255, 255])));
    f.extend_from_slice(&chunk(b"IEND", &[]));
    assert!(matches!(Png::decode(&f), Err(Error::UnsupportedFormat)));
}

#[test]
fn interlaced_image_is_unsupported() {
    let mut f = signature();
    f.extend_from_slice(&chunk(b"IHDR", &ihdr_payload(1, 1, 8, 6, 1)));
    f.extend_from_slice(&chunk(b"IDAT", &zlib(&[0, 255, 255, 255, 255])));
    f.extend_from_slice(&chunk(b"IEND", &[]));
    assert!(matches!(Png::decode(&f), Err(Error::UnsupportedFormat)));
}

#[test]
fn filter_byte_above_four_is_invalid() {
    let file = png_file(1, 1, &[5, 255, 255, 255, 255]);
    assert!(matches!(Png::decode(&file), Err(Error::InvalidFilterType)));
}

#[test]
fn truncated_scanline_is_unexpected_end() {
    let file = png_file(1, 1, &[0, 255, 255]);
    assert!(matches!(Png::decode(&file), Err(Error::UnexpectedEnd)));
}

#[test]
fn unknown_chunks_are_retained_and_ignored() {
    let mut f = signature();
    f.extend_from_slice(&chunk(b"IHDR", &ihdr_payload(1, 1, 8, 6, 0)));
    f.extend_from_slice(&chunk(b"tEXt", b"comment"));
    f.extend_from_slice(&chunk(b"IDAT", &zlib(&[0, 1, 2, 3, 4])));
    f.extend_from_slice(&chunk(b"IEND", &[]));
    let png = Png::decode(&f).unwrap();
    assert_eq!(png.img_data, vec![1, 2, 3, 4]);
}

#[test]
fn image_data_may_span_several_chunks() {
    let z = zlib(&[0, 9, 8, 7, 6]);
    let (a, b) = z.split_at(3);
    let mut f = signature();
    f.extend_from_slice(&chunk(b"IHDR", &ihdr_payload(1, 1, 8, 6, 0)));
    f.extend_from_slice(&chunk(b"IDAT", a));
    f.extend_from_slice(&chunk(b"IDAT", b));
    f.extend_from_slice(&chunk(b"IEND", &[]));
    let png = Png::decode(&f).unwrap();
    assert_eq!(png.img_data, vec![9, 8, 7, 6]);
}

#[test]
fn io_error_variant_carries_message_and_path() {
    let e = Error::Io { message: String::from("denied"), path: String::from("a.png") };
    assert!(matches!(e, Error::Io { .. }));
}

#[test]
fn up_filter_uses_previous_row_as_predictor() {
    // A 2 by 2 image: the first row is unfiltered, the second uses "Up",
    // so each of its bytes must be reconstructed from the byte directly
    // above.
    let row0 = [10u8, 20, 30, 40, 50, 60, 70, 80];
    let delta = [1u8, 2, 3, 4, 5, 6, 7, 8];
    let mut stream = vec![0u8];
    stream.extend_from_slice(&row0);
    stream.push(2);
    stream.extend_from_slice(&delta);
    let file = png_file(2, 2, &stream);
    let png = Png::decode(&file).unwrap();
    let mut expected = row0.to_vec();
    for i in 0..8 {
        expected.push(row0[i].wrapping_add(delta[i]));
    }
    assert_eq!(png.img_data, expected);
}

#[test]
fn sub_filter_uses_left_pixel_within_row() {
    // One row of two pixels under "Sub": the second pixel's bytes add
    // the reconstructed bytes 4 positions to the left.
    let stream = vec![1u8, 100, 101, 102, 103, 10, 20, 30, 40];
    let file = png_file(2, 1, &stream);
    let png = Png::decode(&file).unwrap();
    assert_eq!(png.img_data, vec![100, 101, 102, 103, 110, 121, 132, 143]);
}

#[test]
fn average_and_paeth_filters_through_full_decode() {
    // A 2 by 2 image: the first row under "Average" (no row above, so
    // only the left pixel halves in), the second under "Paeth" (all
    // three neighbors available).
    let mut stream = vec![3u8];
    stream.extend_from_slice(&[10, 20, 30, 40, 50, 60, 70, 80]);
    stream.push(4);
    stream.extend_from_slice(&[1, 2, 3, 4, 5, 6, 7, 8]);
    let file = png_file(2, 2, &stream);
    let png = Png::decode(&file).unwrap();
    let row0 = [10u8, 20, 30, 40, 55, 70, 85, 100];
    let row1 = [11u8, 22, 33, 44, 60, 76, 92, 108];
    let mut expected = row0.to_vec();
    expected.extend_from_slice(&row1);
    assert_eq!(png.img_data, expected);
}

fn round_trip_one(ft: FilterType) {
    // A known two-row context: the first row is already reconstructed,
    // the second arrives filtered; unfiltering then re-filtering it must
    // reproduce the filtered bytes exactly.
    let prev = vec![9u8, 250, 3, 128, 77, 200, 15, 64];
    let filtered = vec![13u8, 251, 130, 2, 254, 33, 100, 219];
    let mut reconstructed = prev.clone();
    decode_filter(&mut reconstructed, &filtered, 0, 8, ft);
    assert_eq!(reconstructed.len(), 16);
    let refiltered = encode_filter(&reconstructed, 8, 8, ft);
    assert_eq!(refiltered, filtered);
}

#[test]
fn round_trip_sub_filter() {
    round_trip_one(FilterType::Sub);
}

#[test]
fn round_trip_up_filter() {
    round_trip_one(FilterType::Up);
}

#[test]
fn round_trip_average_filter() {
    round_trip_one(FilterType::Average);
}

#[test]
fn round_trip_paeth_filter() {
    round_trip_one(FilterType::Paeth);
}

#[test]
fn filter_type_from_byte_rejects_large_values() {
    assert!(matches!(FilterType::from_byte(0), Ok(FilterType::NoFilter)));
    assert!(matches!(FilterType::from_byte(4), Ok(FilterType::Paeth)));
    assert!(matches!(
        FilterType::from_byte(5),
        Err(Error::InvalidFilterType)
    ));
}
