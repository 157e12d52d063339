use webgateway::pixel_format::{PixelFormat, PixelLayout};

fn format(bits: u8, depth: u8, big_endian: u8, true_color: u8, shifts: (u8, u8, u8)) -> PixelFormat {
    PixelFormat {
        bits_per_pixel: bits,
        depth,
        big_endian_flag: big_endian,
        true_color_flag: true_color,
        red_max: 255,
        green_max: 255,
        blue_max: 255,
        red_shift: shifts.0,
        green_shift: shifts.1,
        blue_shift: shifts.2,
    }
}

#[test]
fn bpp_is_an_eighth_of_the_bits() {
    assert_eq!(format(8, 8, 0, 1, (0, 0, 0)).bpp(), 1);
    assert_eq!(format(16, 16, 0, 1, (0, 0, 0)).bpp(), 2);
    assert_eq!(format(32, 24, 0, 1, (0, 8, 16)).bpp(), 4);
}

#[test]
fn formats_of_8_16_and_32_bits_are_well_formed() {
    assert!(format(8, 8, 0, 1, (0, 0, 0)).is_well_formed());
    assert!(format(16, 16, 0, 1, (0, 0, 0)).is_well_formed());
    assert!(format(32, 24, 0, 1, (0, 8, 16)).is_well_formed());
    assert!(!format(24, 24, 0, 1, (0, 8, 16)).is_well_formed());
    assert!(!format(0, 0, 0, 1, (0, 8, 16)).is_well_formed());
}

#[test]
fn pixel_mask_combines_the_channels() {
    assert_eq!(format(32, 24, 0, 1, (0, 8, 16)).pixel_mask(), 0x00ff_ffff);
    assert_eq!(format(32, 24, 0, 1, (8, 16, 24)).pixel_mask(), 0xffff_ff00);
    assert_eq!(format(32, 24, 0, 1, (24, 8, 0)).pixel_mask(), 0xff00_ffff);
}

#[test]
fn pixel_mask_drops_what_is_shifted_out() {
    assert_eq!(format(32, 24, 0, 1, (32, 8, 0)).pixel_mask(), 0x0000_ffff);
    assert_eq!(format(32, 24, 0, 1, (255, 255, 255)).pixel_mask(), 0);
    assert_eq!(format(32, 24, 0, 1, (28, 0, 0)).pixel_mask(), 0xf000_00ff);
}

#[test]
fn empty_high_byte_compresses_to_three_bytes() {
    let little = format(32, 24, 0, 1, (0, 8, 16)).layout();
    assert_eq!(little, PixelLayout { bpp: 4, compressed_bpp: 3, pad: true });
    let big = format(32, 24, 1, 1, (0, 8, 16)).layout();
    assert_eq!(big, PixelLayout { bpp: 4, compressed_bpp: 3, pad: false });
}

#[test]
fn empty_low_byte_compresses_to_three_bytes() {
    let little = format(32, 24, 0, 1, (8, 16, 24)).layout();
    assert_eq!(little, PixelLayout { bpp: 4, compressed_bpp: 3, pad: false });
    let big = format(32, 24, 1, 1, (8, 16, 24)).layout();
    assert_eq!(big, PixelLayout { bpp: 4, compressed_bpp: 3, pad: true });
}

#[test]
fn full_mask_reads_four_bytes() {
    let layout = format(32, 24, 0, 1, (24, 8, 0)).layout();
    assert_eq!(layout, PixelLayout { bpp: 4, compressed_bpp: 4, pad: false });
}

#[test]
fn deep_or_palette_formats_read_at_full_width() {
    assert_eq!(
        format(32, 32, 0, 1, (0, 8, 16)).layout(),
        PixelLayout { bpp: 4, compressed_bpp: 4, pad: false }
    );
    assert_eq!(
        format(32, 24, 0, 0, (0, 8, 16)).layout(),
        PixelLayout { bpp: 4, compressed_bpp: 4, pad: false }
    );
    assert_eq!(
        format(16, 16, 0, 1, (0, 8, 16)).layout(),
        PixelLayout { bpp: 2, compressed_bpp: 2, pad: false }
    );
    assert_eq!(
        format(8, 8, 0, 1, (0, 0, 0)).layout(),
        PixelLayout { bpp: 1, compressed_bpp: 1, pad: false }
    );
}

#[test]
fn compression_triggers_exactly_on_the_stated_condition() {
    for bits in [8u8, 16, 32] {
        for depth in [8u8, 16, 24, 25, 32] {
            for true_color in [0u8, 1] {
                for shifts in [(0u8, 8u8, 16u8), (8, 16, 24), (24, 8, 0), (0, 0, 0)] {
                    let f = format(bits, depth, 0, true_color, shifts);
                    let mask = f.pixel_mask();
                    let expected = bits == 32
                        && true_color > 0
                        && depth <= 24
                        && (mask & 0xff == 0 || mask & 0xff00_0000 == 0);
                    let layout = f.layout();
                    assert_eq!(layout.bpp, (bits / 8) as usize);
                    assert_eq!(layout.compressed_bpp != layout.bpp, expected);
                }
            }
        }
    }
}

#[test]
fn named_formats_have_their_shifts() {
    let rgba = PixelFormat::rgba();
    assert_eq!((rgba.red_shift, rgba.green_shift, rgba.blue_shift), (0, 8, 16));
    assert_eq!(rgba, format(32, 24, 0, 1, (0, 8, 16)));
    let bgra = PixelFormat::bgra();
    assert_eq!((bgra.red_shift, bgra.green_shift, bgra.blue_shift), (16, 8, 0));
    assert_eq!(bgra.pixel_mask(), 0x00ff_ffff);
    assert!(bgra.is_well_formed());
}
