use webgateway::bits::{BitReader, ByteReader};
use webgateway::error::DecodeError;
use webgateway::pixel_format::{PixelFormat, PixelLayout};
use webgateway::rect::{PatchKind, Rect};
use webgateway::zrle::{
    copy_indexed, copy_true_color, decode_tile, decode_tiles, read_run_length, Subencoding,
};

// 32 bits of depth 24 with an empty high byte: three stored bytes, behind a pad byte.
fn padded() -> PixelFormat {
    PixelFormat {
        bits_per_pixel: 32,
        depth: 24,
        big_endian_flag: 0,
        true_color_flag: 1,
        red_max: 255,
        green_max: 255,
        blue_max: 255,
        red_shift: 0,
        green_shift: 8,
        blue_shift: 16,
    }
}

// 32 bits of depth 32: four stored bytes.
fn full() -> PixelFormat {
    PixelFormat { depth: 32, ..padded() }
}

fn run_of(bytes: &[u8]) -> Result<u64, DecodeError> {
    let mut reader = BitReader::new(ByteReader::new(bytes));
    read_run_length(&mut reader)
}

fn one_tile(format: &PixelFormat, width: u16, height: u16, data: &[u8]) -> Result<Vec<u8>, DecodeError> {
    let rect = Rect { x: 0, y: 0, width, height };
    let mut patches = decode_tiles(format, &rect, data)?;
    assert_eq!(patches.len(), 1);
    Ok(patches.remove(0).data)
}

#[test]
fn run_length_of_one_byte() {
    assert_eq!(run_of(&[5]), Ok(6));
}

#[test]
fn run_length_of_two_bytes() {
    assert_eq!(run_of(&[255, 3]), Ok(259));
}

#[test]
fn run_length_of_three_bytes() {
    assert_eq!(run_of(&[255, 255, 0]), Ok(511));
}

#[test]
fn run_length_is_at_least_one() {
    assert_eq!(run_of(&[0]), Ok(1));
    assert_eq!(run_of(&[254]), Ok(255));
}

#[test]
fn run_length_needs_its_last_byte() {
    assert_eq!(run_of(&[]), Err(DecodeError::UnexpectedEof));
    assert_eq!(run_of(&[255, 255]), Err(DecodeError::UnexpectedEof));
}

#[test]
fn run_length_needs_an_aligned_cursor() {
    let data = [0u8, 5];
    let mut reader = BitReader::new(ByteReader::new(&data));
    assert_eq!(reader.read_bits(1), Ok(0));
    assert_eq!(read_run_length(&mut reader), Err(DecodeError::UnalignedByteRead));
}

#[test]
fn run_length_stops_behind_its_last_byte() {
    let data = [255u8, 1, 9];
    let mut reader = BitReader::new(ByteReader::new(&data));
    assert_eq!(read_run_length(&mut reader), Ok(257));
    assert_eq!(reader.read_u8(), Ok(9));
}

#[test]
fn subencodings_follow_the_table() {
    assert_eq!(Subencoding::classify(false, 0), Some(Subencoding::TrueColor));
    assert_eq!(Subencoding::classify(false, 1), Some(Subencoding::Solid));
    assert_eq!(Subencoding::classify(false, 2), Some(Subencoding::Packed { bits: 1 }));
    assert_eq!(Subencoding::classify(false, 3), Some(Subencoding::Packed { bits: 2 }));
    assert_eq!(Subencoding::classify(false, 4), Some(Subencoding::Packed { bits: 2 }));
    assert_eq!(Subencoding::classify(false, 5), Some(Subencoding::Packed { bits: 4 }));
    assert_eq!(Subencoding::classify(false, 16), Some(Subencoding::Packed { bits: 4 }));
    assert_eq!(Subencoding::classify(true, 0), Some(Subencoding::TrueColorRle));
    assert_eq!(Subencoding::classify(true, 2), Some(Subencoding::PaletteRle));
    assert_eq!(Subencoding::classify(true, 127), Some(Subencoding::PaletteRle));
}

#[test]
fn undefined_subencodings_are_not_in_the_table() {
    assert_eq!(Subencoding::classify(false, 17), None);
    assert_eq!(Subencoding::classify(false, 127), None);
    assert_eq!(Subencoding::classify(true, 1), None);
    assert_eq!(Subencoding::classify(true, 128), None);
    assert_eq!(Subencoding::classify(false, 255), None);
}

#[test]
fn true_color_pixel_of_four_stored_bytes() {
    let layout = PixelLayout { bpp: 4, compressed_bpp: 4, pad: false };
    let data = [1u8, 2, 3, 4];
    let mut reader = BitReader::new(ByteReader::new(&data));
    let mut pixels = vec![9u8];
    assert_eq!(copy_true_color(&mut reader, &mut pixels, &layout), Ok(()));
    assert_eq!(pixels, vec![9, 3, 2, 1, 4]);
}

#[test]
fn true_color_pixel_of_three_stored_bytes() {
    let data = [1u8, 2, 3];
    let unpadded = PixelLayout { bpp: 4, compressed_bpp: 3, pad: false };
    let mut reader = BitReader::new(ByteReader::new(&data));
    let mut pixels = Vec::new();
    assert_eq!(copy_true_color(&mut reader, &mut pixels, &unpadded), Ok(()));
    assert_eq!(pixels, vec![3, 2, 1, 255]);
    let padded = PixelLayout { bpp: 4, compressed_bpp: 3, pad: true };
    let mut reader = BitReader::new(ByteReader::new(&data));
    let mut pixels = Vec::new();
    assert_eq!(copy_true_color(&mut reader, &mut pixels, &padded), Ok(()));
    assert_eq!(pixels, vec![2, 1, 255, 3]);
}

#[test]
fn true_color_pixel_of_narrow_formats() {
    let data = [1u8, 2];
    let two = PixelLayout { bpp: 2, compressed_bpp: 2, pad: false };
    let mut reader = BitReader::new(ByteReader::new(&data));
    let mut pixels = Vec::new();
    assert_eq!(copy_true_color(&mut reader, &mut pixels, &two), Ok(()));
    assert_eq!(pixels, vec![255, 2]);
    let one = PixelLayout { bpp: 1, compressed_bpp: 1, pad: false };
    let mut reader = BitReader::new(ByteReader::new(&data));
    let mut pixels = Vec::new();
    assert_eq!(copy_true_color(&mut reader, &mut pixels, &one), Ok(()));
    assert_eq!(pixels, vec![255]);
}

#[test]
fn true_color_pixel_needs_all_its_bytes() {
    let layout = PixelLayout { bpp: 4, compressed_bpp: 4, pad: false };
    let data = [1u8, 2, 3];
    let mut reader = BitReader::new(ByteReader::new(&data));
    let mut pixels = vec![7u8];
    assert_eq!(copy_true_color(&mut reader, &mut pixels, &layout), Err(DecodeError::UnexpectedEof));
    assert_eq!(pixels, vec![7]);
}

#[test]
fn indexed_pixel_is_a_palette_slot() {
    let palette = vec![1u8, 2, 3, 4, 5, 6, 7, 8];
    let mut pixels = vec![0u8];
    assert_eq!(copy_indexed(&palette, &mut pixels, 4, 1), Ok(()));
    assert_eq!(pixels, vec![0, 5, 6, 7, 8]);
    assert_eq!(copy_indexed(&palette, &mut pixels, 2, 3), Ok(()));
    assert_eq!(pixels, vec![0, 5, 6, 7, 8, 7, 8]);
}

#[test]
fn indexed_pixel_outside_the_palette_fails() {
    let palette = vec![1u8, 2, 3, 4, 5, 6, 7, 8];
    let mut pixels = vec![0u8];
    assert_eq!(copy_indexed(&palette, &mut pixels, 4, 2), Err(DecodeError::InvalidPaletteIndex));
    assert_eq!(copy_indexed(&palette, &mut pixels, 4, 255), Err(DecodeError::InvalidPaletteIndex));
    assert_eq!(pixels, vec![0]);
}

#[test]
fn true_color_tile_round_trip() {
    let data = [0u8, 1, 2, 3, 4, 5, 6, 7, 8];
    assert_eq!(one_tile(&full(), 2, 1, &data), Ok(vec![3, 2, 1, 4, 7, 6, 5, 8]));
}

#[test]
fn solid_tile_round_trip() {
    let data = [1u8, 1, 2, 3, 4];
    assert_eq!(
        one_tile(&full(), 2, 2, &data),
        Ok(vec![3, 2, 1, 4, 3, 2, 1, 4, 3, 2, 1, 4, 3, 2, 1, 4])
    );
}

#[test]
fn solid_tile_fills_every_pixel() {
    let rect = Rect { x: 10, y: 20, width: 2, height: 2 };
    let data = [1u8, 0x11, 0x22, 0x33];
    let patches = decode_tiles(&padded(), &rect, &data).unwrap();
    assert_eq!(patches.len(), 1);
    assert_eq!(patches[0].rect, rect);
    assert_eq!(patches[0].kind, PatchKind::Raw);
    assert_eq!(
        patches[0].data,
        vec![
            0x22, 0x11, 0xff, 0x33, 0x22, 0x11, 0xff, 0x33, 0x22, 0x11, 0xff, 0x33, 0x22, 0x11, 0xff,
            0x33
        ]
    );
}

#[test]
fn one_bit_tile_round_trip() {
    let data = [2u8, 1, 2, 3, 4, 5, 6, 7, 8, 0b1010_0000, 0b0100_0000];
    let a = [3u8, 2, 1, 4];
    let b = [7u8, 6, 5, 8];
    let expected = [b, a, b, a, b, a].concat();
    assert_eq!(one_tile(&full(), 3, 2, &data), Ok(expected));
}

#[test]
fn two_bit_tile_round_trip() {
    let data = [3u8, 1, 1, 1, 1, 2, 2, 2, 2, 3, 3, 3, 3, 0b0001_1000, 0b0100_0000];
    let expected = [[1u8; 4], [2; 4], [3; 4], [1; 4], [2; 4]].concat();
    assert_eq!(one_tile(&full(), 5, 1, &data), Ok(expected));
}

#[test]
fn four_bit_tile_round_trip() {
    let mut data = vec![5u8];
    for entry in 1..=5u8 {
        data.extend_from_slice(&[entry; 4]);
    }
    data.extend_from_slice(&[0x40, 0x20]);
    let expected = [[5u8; 4], [1; 4], [3; 4]].concat();
    assert_eq!(one_tile(&full(), 3, 1, &data), Ok(expected));
}

#[test]
fn true_color_run_tile_round_trip() {
    let data = [128u8, 1, 2, 3, 4, 2, 5, 6, 7, 8, 0];
    let a = [3u8, 2, 1, 4];
    let b = [7u8, 6, 5, 8];
    assert_eq!(one_tile(&full(), 2, 2, &data), Ok([a, a, a, b].concat()));
}

#[test]
fn palette_run_tile_round_trip() {
    let data = [130u8, 1, 1, 1, 1, 2, 2, 2, 2, 129, 1, 0, 1];
    let expected = [[2u8; 4], [2; 4], [1; 4], [2; 4]].concat();
    assert_eq!(one_tile(&full(), 2, 2, &data), Ok(expected));
}

#[test]
fn a_run_may_cross_rows() {
    let data = [128u8, 1, 2, 3, 4, 5];
    let a = [3u8, 2, 1, 4];
    assert_eq!(one_tile(&full(), 3, 2, &data), Ok([a, a, a, a, a, a].concat()));
}

#[test]
fn a_run_beyond_the_tile_is_kept() {
    let data = [128u8, 1, 2, 3, 4, 4];
    let a = [3u8, 2, 1, 4];
    assert_eq!(one_tile(&full(), 2, 1, &data), Ok([a, a, a, a, a].concat()));
}

#[test]
fn packed_rows_start_on_a_byte() {
    // two rows of 9 one-bit indices: two bytes each
    let data = [2u8, 0, 0, 0, 0, 1, 1, 1, 1, 0xff, 0x80, 0x00, 0x7f];
    let pixels = one_tile(&full(), 9, 2, &data).unwrap();
    let indices: Vec<u8> = pixels.chunks(4).map(|p| p[0]).collect();
    assert_eq!(indices, vec![1, 1, 1, 1, 1, 1, 1, 1, 1, 0, 0, 0, 0, 0, 0, 0, 0, 0]);
}

#[test]
fn tiles_are_clipped_to_the_rectangle() {
    let rect = Rect { x: 5, y: 7, width: 100, height: 100 };
    let data = [1u8, 1, 1, 1, 1, 2, 2, 2, 1, 3, 3, 3, 1, 4, 4, 4];
    let patches = decode_tiles(&padded(), &rect, &data).unwrap();
    assert_eq!(patches.len(), 4);
    assert_eq!(patches[0].rect, Rect { x: 5, y: 7, width: 64, height: 64 });
    assert_eq!(patches[1].rect, Rect { x: 69, y: 7, width: 36, height: 64 });
    assert_eq!(patches[2].rect, Rect { x: 5, y: 71, width: 64, height: 36 });
    assert_eq!(patches[3].rect, Rect { x: 69, y: 71, width: 36, height: 36 });
    assert_eq!(patches[0].data.len(), 64 * 64 * 4);
    assert_eq!(patches[1].data.len(), 36 * 64 * 4);
    assert_eq!(patches[2].data.len(), 64 * 36 * 4);
    assert_eq!(patches[3].data.len(), 36 * 36 * 4);
    assert_eq!(&patches[3].data[..4], &[4, 4, 255, 4]);
    assert!(patches.iter().all(|p| p.kind == PatchKind::Raw));
}

#[test]
fn a_rectangle_of_whole_tiles_is_not_clipped() {
    let rect = Rect { x: 0, y: 0, width: 128, height: 64 };
    let data = [1u8, 1, 1, 1, 1, 2, 2, 2];
    let patches = decode_tiles(&padded(), &rect, &data).unwrap();
    assert_eq!(patches.len(), 2);
    assert_eq!(patches[0].rect, Rect { x: 0, y: 0, width: 64, height: 64 });
    assert_eq!(patches[1].rect, Rect { x: 64, y: 0, width: 64, height: 64 });
}

#[test]
fn an_empty_rectangle_has_no_tile() {
    let rect = Rect { x: 0, y: 0, width: 0, height: 10 };
    assert_eq!(decode_tiles(&padded(), &rect, &[]), Ok(vec![]));
    assert_eq!(decode_tiles(&padded(), &rect, &[0]), Err(DecodeError::LeftoverBytes));
}

#[test]
fn undefined_subencoding_fails_the_tile() {
    let mut data = vec![17u8];
    data.extend_from_slice(&[0u8; 17 * 4]);
    data.extend_from_slice(&[0u8; 16]);
    assert_eq!(one_tile(&full(), 2, 2, &data), Err(DecodeError::InvalidSubencoding));
    let mut reader = BitReader::new(ByteReader::new(&data));
    let layout = full().layout();
    assert_eq!(decode_tile(&mut reader, &layout, 2, 2), Err(DecodeError::InvalidSubencoding));
}

#[test]
fn run_length_flag_with_one_palette_entry_is_undefined() {
    let data = [129u8, 1, 2, 3, 4, 0, 0, 0];
    assert_eq!(one_tile(&full(), 1, 1, &data), Err(DecodeError::InvalidSubencoding));
}

#[test]
fn undefined_subencoding_without_its_palette_runs_out() {
    let data = [17u8, 0, 0, 0];
    assert_eq!(one_tile(&full(), 2, 2, &data), Err(DecodeError::UnexpectedEof));
}

#[test]
fn a_failed_tile_leaves_no_patch() {
    let rect = Rect { x: 0, y: 0, width: 128, height: 1 };
    let data = [1u8, 1, 1, 1, 1, 50, 0, 0, 0, 0];
    assert_eq!(decode_tiles(&full(), &rect, &data), Err(DecodeError::UnexpectedEof));
}

#[test]
fn leftover_bytes_fail_the_rectangle() {
    let data = [1u8, 1, 2, 3, 4, 0];
    assert_eq!(one_tile(&full(), 1, 1, &data), Err(DecodeError::LeftoverBytes));
}

#[test]
fn a_tile_needs_all_its_pixels() {
    let data = [0u8, 1, 2, 3, 4, 5, 6, 7];
    assert_eq!(one_tile(&full(), 2, 1, &data), Err(DecodeError::UnexpectedEof));
    assert_eq!(one_tile(&full(), 2, 1, &[]), Err(DecodeError::UnexpectedEof));
}

#[test]
fn packed_index_outside_the_palette_fails() {
    let data = [3u8, 1, 1, 1, 1, 2, 2, 2, 2, 3, 3, 3, 3, 0b1100_0000];
    assert_eq!(one_tile(&full(), 1, 1, &data), Err(DecodeError::InvalidPaletteIndex));
}

#[test]
fn run_index_outside_the_palette_fails() {
    let data = [130u8, 1, 1, 1, 1, 2, 2, 2, 2, 2];
    assert_eq!(one_tile(&full(), 1, 1, &data), Err(DecodeError::InvalidPaletteIndex));
}

#[test]
fn decode_tile_stops_behind_the_tile() {
    let data = [1u8, 1, 2, 3, 4, 0xaa];
    let layout = full().layout();
    let mut reader = BitReader::new(ByteReader::new(&data));
    assert_eq!(decode_tile(&mut reader, &layout, 1, 2), Ok(vec![3, 2, 1, 4, 3, 2, 1, 4]));
    assert!(reader.is_aligned());
    assert_eq!(reader.read_u8(), Ok(0xaa));
}

#[test]
fn rect_fits_the_coordinate_space() {
    assert!(Rect { x: 0, y: 0, width: 65535, height: 65535 }.is_fitting());
    assert!(Rect { x: 65535, y: 65500, width: 0, height: 35 }.is_fitting());
    assert!(!Rect { x: 1, y: 0, width: 65535, height: 1 }.is_fitting());
    assert!(!Rect { x: 0, y: 65535, width: 1, height: 1 }.is_fitting());
    assert!(Rect { x: 0, y: 0, width: 0, height: 9 }.is_empty());
    assert!(!Rect { x: 0, y: 0, width: 1, height: 9 }.is_empty());
}
