//! How raw pixel bytes map to colour channels, and how many bytes a pixel
//! takes on the wire inside a compressed tile.

use vstd::prelude::*;

verus! {

/// The pixel format a session runs with, as the server announces it.
#[derive(Clone, Copy, Debug, PartialEq, Eq, Structural)]
pub struct PixelFormat {
    pub bits_per_pixel: u8,
    pub depth: u8,
    pub big_endian_flag: u8,
    pub true_color_flag: u8,
    pub red_max: u16,
    pub green_max: u16,
    pub blue_max: u16,
    pub red_shift: u8,
    pub green_shift: u8,
    pub blue_shift: u8,
}

/// What the tile decoder needs to know of a pixel format: the width of a
/// pixel in the output, the width of a pixel in the compressed stream, and
/// whether the byte left out of a compressed pixel is the first of the four.
#[derive(Clone, Copy, Debug, PartialEq, Eq, Structural)]
pub struct PixelLayout {
    pub bpp: usize,
    pub compressed_bpp: usize,
    pub pad: bool,
}

/// One channel's maximum moved to its place in a 32-bit pixel. Bits moved
/// past bit 31 are gone, so a shift of 32 or more leaves nothing.
pub open spec fn channel_mask(max: u16, shift: u8) -> u32 {
    if shift < 32 {
        (max as u32) << (shift as u32)
    } else {
        0u32
    }
}

fn shifted_channel(max: u16, shift: u8) -> (mask: u32)
    ensures
        mask == channel_mask(max, shift),
{
    if shift < 32 {
        (max as u32) << (shift as u32)
    } else {
        0u32
    }
}

impl PixelLayout {
    /// A layout the decoder can work with: a pixel fits the four-byte
    /// scratch buffer, with or without the pad byte.
    pub open spec fn well_formed(self) -> bool {
        &&& 1 <= self.bpp <= 4
        &&& 1 <= self.compressed_bpp <= 4
        &&& self.pad ==> self.compressed_bpp == 3
    }
}

impl PixelFormat {
    /// A format whose pixels take a whole number of bytes: 8, 16 or 32 bits.
    pub open spec fn well_formed(self) -> bool {
        self.bits_per_pixel == 8 || self.bits_per_pixel == 16 || self.bits_per_pixel == 32
    }

    /// Bytes per pixel.
    pub open spec fn spec_bpp(self) -> nat {
        (self.bits_per_pixel / 8) as nat
    }

    /// The three channel masks combined.
    pub open spec fn spec_pixel_mask(self) -> u32 {
        channel_mask(self.red_max, self.red_shift) | channel_mask(self.green_max, self.green_shift)
            | channel_mask(self.blue_max, self.blue_shift)
    }

    /// The format is 32-bit true colour of depth 24 at most, so that one of
    /// the four bytes of a pixel may carry no colour.
    pub open spec fn three_byte_candidate(self) -> bool {
        self.bits_per_pixel == 32 && self.true_color_flag > 0 && self.depth <= 24
    }

    /// Tiles carry three bytes per pixel in place of four.
    pub open spec fn compresses(self) -> bool {
        self.three_byte_candidate() && (self.spec_pixel_mask() & 0x0000_00ffu32 == 0
            || self.spec_pixel_mask() & 0xff00_0000u32 == 0)
    }

    /// The layout the tile decoder reads pixels with.
    pub open spec fn spec_layout(self) -> PixelLayout {
        if self.three_byte_candidate() {
            if self.spec_pixel_mask() & 0x0000_00ffu32 == 0 {
                PixelLayout { bpp: self.spec_bpp() as usize, compressed_bpp: 3, pad: self.big_endian_flag > 0 }
            } else if self.spec_pixel_mask() & 0xff00_0000u32 == 0 {
                PixelLayout { bpp: self.spec_bpp() as usize, compressed_bpp: 3, pad: self.big_endian_flag == 0 }
            } else {
                PixelLayout { bpp: self.spec_bpp() as usize, compressed_bpp: 4, pad: false }
            }
        } else {
            PixelLayout {
                bpp: self.spec_bpp() as usize,
                compressed_bpp: self.spec_bpp() as usize,
                pad: false,
            }
        }
    }

    /// 32 bits a pixel, of which 24 carry colour: red in the lowest byte,
    /// then green, then blue.
    pub fn rgba() -> (format: PixelFormat)
        ensures
            format == (PixelFormat {
                bits_per_pixel: 32,
                depth: 24,
                big_endian_flag: 0,
                true_color_flag: 1,
                red_max: 255,
                green_max: 255,
                blue_max: 255,
                red_shift: 0,
                green_shift: 8,
                blue_shift: 16,
            }),
            format.well_formed(),
    {
        PixelFormat {
            bits_per_pixel: 32,
            depth: 24,
            big_endian_flag: 0,
            true_color_flag: 1,
            red_max: 255,
            green_max: 255,
            blue_max: 255,
            red_shift: 0,
            green_shift: 8,
            blue_shift: 16,
        }
    }

    /// 32 bits a pixel, of which 24 carry colour: blue in the lowest byte,
    /// then green, then red.
    pub fn bgra() -> (format: PixelFormat)
        ensures
            format == (PixelFormat {
                bits_per_pixel: 32,
                depth: 24,
                big_endian_flag: 0,
                true_color_flag: 1,
                red_max: 255,
                green_max: 255,
                blue_max: 255,
                red_shift: 16,
                green_shift: 8,
                blue_shift: 0,
            }),
            format.well_formed(),
    {
        PixelFormat {
            bits_per_pixel: 32,
            depth: 24,
            big_endian_flag: 0,
            true_color_flag: 1,
            red_max: 255,
            green_max: 255,
            blue_max: 255,
            red_shift: 16,
            green_shift: 8,
            blue_shift: 0,
        }
    }

    /// Whether the format is one the decoder accepts.
    pub fn is_well_formed(&self) -> (ok: bool)
        ensures
            ok == self.well_formed(),
    {
        self.bits_per_pixel == 8 || self.bits_per_pixel == 16 || self.bits_per_pixel == 32
    }

    /// Bytes per pixel.
    pub fn bpp(&self) -> (n: usize)
        ensures
            n == self.spec_bpp(),
            n == self.bits_per_pixel as int / 8,
    {
        (self.bits_per_pixel / 8) as usize
    }

    /// The 32-bit mask of the bits that carry colour.
    pub fn pixel_mask(&self) -> (mask: u32)
        ensures
            mask == self.spec_pixel_mask(),
    {
        shifted_channel(self.red_max, self.red_shift) | shifted_channel(
            self.green_max,
            self.green_shift,
        ) | shifted_channel(self.blue_max, self.blue_shift)
    }

    /// The layout tiles are read with. Three bytes per pixel are read exactly
    /// when the format is 32-bit true colour of depth 24 at most and the low
    /// or the high byte of the mask is empty; any other format is read at
    /// its full width.
    pub fn layout(&self) -> (layout: PixelLayout)
        ensures
            layout == self.spec_layout(),
            layout.bpp == self.spec_bpp(),
            self.compresses() <==> layout.compressed_bpp == 3 && layout.bpp == 4,
            self.well_formed() ==> layout.well_formed(),
            self.well_formed() ==> (self.compresses() <==> layout.compressed_bpp != layout.bpp),
    {
        let bpp: usize = self.bpp();
        if self.bits_per_pixel == 32 && self.true_color_flag > 0 && self.depth <= 24 {
            let mask: u32 = self.pixel_mask();
            if mask & 0x0000_00ffu32 == 0 {
                PixelLayout { bpp, compressed_bpp: 3, pad: self.big_endian_flag > 0 }
            } else if mask & 0xff00_0000u32 == 0 {
                PixelLayout { bpp, compressed_bpp: 3, pad: self.big_endian_flag == 0 }
            } else {
                PixelLayout { bpp, compressed_bpp: 4, pad: false }
            }
        } else {
            PixelLayout { bpp, compressed_bpp: bpp, pad: false }
        }
    }
}

} // verus!
