//! The ZRLE tile decoder.
//!
//! A rectangle is cut into tiles of at most 64 by 64 pixels, sent row by
//! row. Each tile starts with one byte that says how its pixels are stored:
//! plainly, as one colour, as indices into a palette packed into rows of
//! bits, or as runs. The functions of this module read tiles from inflated
//! bytes; what they return is stated over the spec functions at the top.

use crate::bits::{bit_field, BitReader, ByteReader};
use crate::error::DecodeError;
use crate::pixel_format::{PixelFormat, PixelLayout};
use crate::rect::{patch_models, ImagePatch, PatchKind, PatchModel, Rect};
use vstd::arithmetic::div_mod::lemma_fundamental_div_mod_converse;
use vstd::prelude::*;

verus! {

/// The side of a full tile, in pixels.
pub const TILE_SIZE: u16 = 64;

/// How the pixels of a tile are stored.
#[derive(Clone, Copy, Debug, PartialEq, Eq, Structural)]
pub enum Subencoding {
    /// One true-colour pixel after the other.
    TrueColor,
    /// One palette entry for the whole tile.
    Solid,
    /// Palette indices of `bits` bits each, every row padded to a byte.
    Packed { bits: u8 },
    /// Runs of true-colour pixels.
    TrueColorRle,
    /// Runs of palette entries.
    PaletteRle,
}

/// The table of subencodings: what a tile header's run-length flag and
/// palette size stand for, if anything.
pub open spec fn classify(is_rle: bool, palette_size: u8) -> Option<Subencoding> {
    if !is_rle && palette_size == 0 {
        Some(Subencoding::TrueColor)
    } else if !is_rle && palette_size == 1 {
        Some(Subencoding::Solid)
    } else if !is_rle && palette_size == 2 {
        Some(Subencoding::Packed { bits: 1 })
    } else if !is_rle && 3 <= palette_size <= 4 {
        Some(Subencoding::Packed { bits: 2 })
    } else if !is_rle && 5 <= palette_size <= 16 {
        Some(Subencoding::Packed { bits: 4 })
    } else if is_rle && palette_size == 0 {
        Some(Subencoding::TrueColorRle)
    } else if is_rle && 2 <= palette_size <= 127 {
        Some(Subencoding::PaletteRle)
    } else {
        None
    }
}

/// Byte `i` of the four-byte scratch buffer that a stored pixel is read
/// into: the stored bytes from `data[at]` on, behind the pad byte if there
/// is one, and `0xff` wherever no stored byte lands.
pub open spec fn scratch_byte(layout: PixelLayout, data: Seq<u8>, at: int, i: int) -> u8 {
    let first: int = if layout.pad {
        1
    } else {
        0
    };
    if first <= i < first + layout.compressed_bpp {
        data[at + i - first]
    } else {
        0xffu8
    }
}

/// Byte `j` of a decoded pixel: the scratch buffer with its bytes 0 and 2
/// exchanged.
pub open spec fn pixel_byte(layout: PixelLayout, data: Seq<u8>, at: int, j: int) -> u8 {
    scratch_byte(
        layout,
        data,
        at,
        if j == 0 {
            2
        } else if j == 2 {
            0
        } else {
            j
        },
    )
}

/// The decoded pixel whose stored bytes start at `data[at]`.
pub open spec fn true_color_pixel(layout: PixelLayout, data: Seq<u8>, at: int) -> Seq<u8> {
    Seq::new(layout.bpp as nat, |j: int| pixel_byte(layout, data, at, j))
}

/// `count` decoded pixels whose stored bytes lie back to back from `data[at]`.
pub open spec fn true_color_pixels(layout: PixelLayout, data: Seq<u8>, at: int, count: nat) -> Seq<
    u8,
>
    decreases count,
{
    if count == 0 {
        Seq::empty()
    } else {
        true_color_pixels(layout, data, at, (count - 1) as nat) + true_color_pixel(
            layout,
            data,
            at + (count - 1) * layout.compressed_bpp,
        )
    }
}

/// `count` copies of a pixel, one after the other.
pub open spec fn repeated(pixel: Seq<u8>, count: nat) -> Seq<u8>
    decreases count,
{
    if count == 0 {
        Seq::empty()
    } else {
        repeated(pixel, (count - 1) as nat) + pixel
    }
}

/// Whether the palette has a slot number `index`.
pub open spec fn has_entry(palette: Seq<u8>, bpp: int, index: int) -> bool {
    index * bpp + bpp <= palette.len()
}

/// Slot number `index` of a palette of `bpp`-byte entries.
pub open spec fn palette_entry(palette: Seq<u8>, bpp: int, index: int) -> Seq<u8> {
    palette.subrange(index * bpp, index * bpp + bpp)
}

/// A run length and the place behind it. The length is one more than the
/// sum of the bytes from `data[at]` up to and with the first that is not
/// 255; `total` is what the bytes before `at` have added up to.
pub open spec fn run_length_from(data: Seq<u8>, at: int, total: int) -> Result<
    (int, int),
    DecodeError,
>
    decreases data.len() - at,
{
    if at < 0 || at >= data.len() {
        Err(DecodeError::UnexpectedEof)
    } else if total + data[at] > u64::MAX {
        Err(DecodeError::RunLengthOverflow)
    } else if data[at] == 255 {
        run_length_from(data, at + 1, total + 255)
    } else {
        Ok((total + data[at], at + 1))
    }
}

/// The run length stored at `data[at]`, and the place behind it.
pub open spec fn run_length(data: Seq<u8>, at: int) -> Result<(int, int), DecodeError> {
    run_length_from(data, at, 1)
}

/// A run length is at least the total it started from, and ends behind
/// where it started.
pub proof fn lemma_run_length_bounds(data: Seq<u8>, at: int, total: int)
    ensures
        run_length_from(data, at, total) matches Ok((length, next)) ==> total <= length <= u64::MAX
            && at < next <= data.len(),
    decreases data.len() - at,
{
    if 0 <= at < data.len() && total + data[at] <= u64::MAX && data[at] == 255 {
        lemma_run_length_bounds(data, at + 1, total + 255);
    }
}

/// What is left of a tile's pixel budget once a run of `length` pixels has
/// been taken from it.
pub open spec fn budget_after(budget: nat, length: int) -> nat {
    if length >= budget {
        0
    } else {
        (budget - length) as nat
    }
}

/// Runs of true-colour pixels from `data[at]` on, until `budget` pixels are
/// filled: the pixels, and the place behind the last run. The last run may
/// hold more pixels than the budget had left; they are kept.
pub open spec fn true_color_runs(layout: PixelLayout, data: Seq<u8>, at: int, budget: nat) -> Result<
    (Seq<u8>, int),
    DecodeError,
>
    decreases budget,
{
    if budget == 0 {
        Ok((Seq::empty(), at))
    } else if at < 0 || at + layout.compressed_bpp > data.len() {
        Err(DecodeError::UnexpectedEof)
    } else {
        match run_length(data, at + layout.compressed_bpp) {
            Err(e) => Err(e),
            Ok((length, next)) => {
                proof {
                    lemma_run_length_bounds(data, at + layout.compressed_bpp, 1);
                }
                match true_color_runs(layout, data, next, budget_after(budget, length)) {
                    Err(e) => Err(e),
                    Ok((rest, end)) => Ok(
                        (repeated(true_color_pixel(layout, data, at), length as nat) + rest, end),
                    ),
                }
            },
        }
    }
}

/// The length of the palette run whose first byte is `data[at]`, and the
/// place behind the run: one, unless the byte's top bit asks for a run
/// length to follow.
pub open spec fn palette_run_length(data: Seq<u8>, at: int) -> Result<(int, int), DecodeError> {
    if data[at] >= 128 {
        run_length(data, at + 1)
    } else {
        Ok((1, at + 1))
    }
}

/// Runs of palette entries from `data[at]` on, until `budget` pixels are
/// filled. The low seven bits of a run's first byte name the entry.
pub open spec fn palette_runs(data: Seq<u8>, at: int, palette: Seq<u8>, bpp: int, budget: nat) -> Result<
    (Seq<u8>, int),
    DecodeError,
>
    decreases budget,
{
    if budget == 0 {
        Ok((Seq::empty(), at))
    } else if at < 0 || at >= data.len() {
        Err(DecodeError::UnexpectedEof)
    } else {
        match palette_run_length(data, at) {
            Err(e) => Err(e),
            Ok((length, next)) => {
                proof {
                    lemma_run_length_bounds(data, at + 1, 1);
                }
                if !has_entry(palette, bpp, (data[at] % 128) as int) {
                    Err(DecodeError::InvalidPaletteIndex)
                } else {
                    match palette_runs(data, next, palette, bpp, budget_after(budget, length)) {
                        Err(e) => Err(e),
                        Ok((rest, end)) => Ok(
                            (
                                repeated(palette_entry(palette, bpp, (data[at] % 128) as int), length as nat)
                                    + rest,
                                end,
                            ),
                        ),
                    }
                }
            },
        }
    }
}

/// The bytes a row of `width` packed indices of `bits` bits takes.
pub open spec fn row_bytes(width: int, bits: int) -> int {
    (width * bits + 7) / 8
}

/// The palette index of the pixel in column `col` of the packed row that
/// starts at `data[row_start]`.
pub open spec fn packed_index(data: Seq<u8>, row_start: int, bits: int, col: int) -> u8 {
    bit_field(data[row_start + (col * bits) / 8], (col * bits) % 8, bits)
}

/// The first `cols` pixels of the packed row that starts at
/// `data[row_start]`. The first pixel whose byte is missing, or whose index
/// the palette does not have, decides the error.
#[verifier::opaque]
pub open spec fn packed_row(
    data: Seq<u8>,
    row_start: int,
    palette: Seq<u8>,
    bpp: int,
    bits: int,
    cols: nat,
) -> Result<Seq<u8>, DecodeError>
    decreases cols,
{
    if cols == 0 {
        Ok(Seq::empty())
    } else {
        match packed_row(data, row_start, palette, bpp, bits, (cols - 1) as nat) {
            Err(e) => Err(e),
            Ok(before) => {
                if row_start + ((cols - 1) * bits) / 8 >= data.len() {
                    Err(DecodeError::UnexpectedEof)
                } else if !has_entry(
                    palette,
                    bpp,
                    packed_index(data, row_start, bits, cols - 1) as int,
                ) {
                    Err(DecodeError::InvalidPaletteIndex)
                } else {
                    Ok(
                        before + palette_entry(
                            palette,
                            bpp,
                            packed_index(data, row_start, bits, cols - 1) as int,
                        ),
                    )
                }
            },
        }
    }
}

/// The first `rows` packed rows of a tile whose rows start at `data[at]`:
/// their pixels, and the place behind the last of them.
pub open spec fn packed_rows(
    data: Seq<u8>,
    at: int,
    palette: Seq<u8>,
    bpp: int,
    bits: int,
    width: nat,
    rows: nat,
) -> Result<(Seq<u8>, int), DecodeError>
    decreases rows,
{
    if rows == 0 {
        Ok((Seq::empty(), at))
    } else {
        match packed_rows(data, at, palette, bpp, bits, width, (rows - 1) as nat) {
            Err(e) => Err(e),
            Ok((before, row_start)) => match packed_row(
                data,
                row_start,
                palette,
                bpp,
                bits,
                width,
            ) {
                Err(e) => Err(e),
                Ok(row) => Ok((before + row, row_start + row_bytes(width as int, bits))),
            },
        }
    }
}

/// One tile of `width` by `height` pixels read from `data[at]` on: its
/// pixels, row by row, and the place behind the tile.
///
/// The first byte holds the run-length flag in its top bit and the palette
/// size in the other seven. The palette follows, one stored pixel per
/// entry, and then the pixels in the form that flag and size stand for.
pub open spec fn tile(layout: PixelLayout, data: Seq<u8>, at: int, width: nat, height: nat) -> Result<
    (Seq<u8>, int),
    DecodeError,
> {
    if at < 0 || at >= data.len() {
        Err(DecodeError::UnexpectedEof)
    } else {
        let is_rle: bool = data[at] >= 128;
        let palette_size: u8 = data[at] % 128;
        let palette_end: int = at + 1 + palette_size * layout.compressed_bpp;
        let palette: Seq<u8> = true_color_pixels(layout, data, at + 1, palette_size as nat);
        if palette_end > data.len() {
            Err(DecodeError::UnexpectedEof)
        } else {
            match classify(is_rle, palette_size) {
                None => Err(DecodeError::InvalidSubencoding),
                Some(Subencoding::TrueColor) => {
                    if palette_end + width * height * layout.compressed_bpp > data.len() {
                        Err(DecodeError::UnexpectedEof)
                    } else {
                        Ok(
                            (
                                true_color_pixels(layout, data, palette_end, width * height),
                                palette_end + width * height * layout.compressed_bpp,
                            ),
                        )
                    }
                },
                Some(Subencoding::Solid) => Ok(
                    (
                        repeated(palette_entry(palette, layout.bpp as int, 0), width * height),
                        palette_end,
                    ),
                ),
                Some(Subencoding::Packed { bits }) => packed_rows(
                    data,
                    palette_end,
                    palette,
                    layout.bpp as int,
                    bits as int,
                    width,
                    height,
                ),
                Some(Subencoding::TrueColorRle) => true_color_runs(
                    layout,
                    data,
                    palette_end,
                    width * height,
                ),
                Some(Subencoding::PaletteRle) => palette_runs(
                    data,
                    palette_end,
                    palette,
                    layout.bpp as int,
                    width * height,
                ),
            }
        }
    }
}

/// The number of tile columns a rectangle is cut into.
pub open spec fn tile_columns(rect: Rect) -> nat {
    ((rect.width + 63) / 64) as nat
}

/// The number of tile rows a rectangle is cut into.
pub open spec fn tile_rows(rect: Rect) -> nat {
    ((rect.height + 63) / 64) as nat
}

/// The number of tiles a rectangle is cut into.
pub open spec fn tile_count(rect: Rect) -> nat {
    tile_rows(rect) * tile_columns(rect)
}

/// The side of the tile number `index` along an edge of `total` pixels:
/// 64, or what is left of the edge where that is less.
pub open spec fn tile_span(total: int, index: int) -> int {
    if total - index * 64 >= 64 {
        64
    } else {
        total - index * 64
    }
}

/// The region that tile number `index` of a rectangle fills. Tiles are
/// numbered row by row, from left to right and from top to bottom.
pub open spec fn tile_rect(rect: Rect, index: int) -> Rect {
    let column: int = index % (tile_columns(rect) as int);
    let row: int = index / (tile_columns(rect) as int);
    Rect {
        x: (rect.x + column * 64) as u16,
        y: (rect.y + row * 64) as u16,
        width: tile_span(rect.width as int, column) as u16,
        height: tile_span(rect.height as int, row) as u16,
    }
}

/// The first `count` tiles of a rectangle, read from the start of `data`:
/// one patch for each, and the place behind the last of them.
#[verifier::opaque]
pub open spec fn tiles(layout: PixelLayout, rect: Rect, data: Seq<u8>, count: nat) -> Result<
    (Seq<PatchModel>, int),
    DecodeError,
>
    decreases count,
{
    if count == 0 {
        Ok((Seq::empty(), 0))
    } else {
        match tiles(layout, rect, data, (count - 1) as nat) {
            Err(e) => Err(e),
            Ok((before, at)) => match tile(
                layout,
                data,
                at,
                tile_rect(rect, count - 1).width as nat,
                tile_rect(rect, count - 1).height as nat,
            ) {
                Err(e) => Err(e),
                Ok((pixels, next)) => Ok(
                    (
                        before.push(
                            PatchModel {
                                data: pixels,
                                rect: tile_rect(rect, count - 1),
                                kind: PatchKind::Raw,
                            },
                        ),
                        next,
                    ),
                ),
            },
        }
    }
}

/// What a rectangle's inflated bytes decode to: one patch for each tile,
/// provided that the tiles take up every byte.
pub open spec fn decoded(layout: PixelLayout, rect: Rect, data: Seq<u8>) -> Result<
    Seq<PatchModel>,
    DecodeError,
> {
    match tiles(layout, rect, data, tile_count(rect)) {
        Err(e) => Err(e),
        Ok((patches, end)) => if end < data.len() {
            Err(DecodeError::LeftoverBytes)
        } else {
            Ok(patches)
        },
    }
}

impl Subencoding {
    /// Looks a tile header up in the table of subencodings.
    pub fn classify(is_rle: bool, palette_size: u8) -> (kind: Option<Subencoding>)
        ensures
            kind == classify(is_rle, palette_size),
            kind is None <==> (is_rle && palette_size == 1) || palette_size > 127 || (!is_rle
                && palette_size > 16),
    {
        if is_rle {
            if palette_size == 0 {
                Some(Subencoding::TrueColorRle)
            } else if 2 <= palette_size && palette_size <= 127 {
                Some(Subencoding::PaletteRle)
            } else {
                None
            }
        } else if palette_size == 0 {
            Some(Subencoding::TrueColor)
        } else if palette_size == 1 {
            Some(Subencoding::Solid)
        } else if palette_size == 2 {
            Some(Subencoding::Packed { bits: 1 })
        } else if palette_size <= 4 {
            Some(Subencoding::Packed { bits: 2 })
        } else if palette_size <= 16 {
            Some(Subencoding::Packed { bits: 4 })
        } else {
            None
        }
    }
}

/// Reads a run length: bytes are added up until one is not 255, and the
/// run is one longer than their sum.
pub fn read_run_length(reader: &mut BitReader) -> (run: Result<u64, DecodeError>)
    ensures
        final(reader).source() == old(reader).source(),
        match run {
            Ok(length) => {
                &&& old(reader).aligned()
                &&& final(reader).aligned()
                &&& 0 <= final(reader).cursor() <= final(reader).source().len() * 8
                &&& length >= 1
                &&& run_length(old(reader).source(), old(reader).cursor() / 8) == Ok::<
                    (int, int),
                    DecodeError,
                >((length as int, final(reader).cursor() / 8))
            },
            Err(e) => if old(reader).aligned() {
                run_length(old(reader).source(), old(reader).cursor() / 8) == Err::<
                    (int, int),
                    DecodeError,
                >(e)
            } else {
                e == DecodeError::UnalignedByteRead && final(reader).cursor() == old(
                    reader,
                ).cursor()
            },
        },
{
    let mut length: u64 = 1;
    let ghost data: Seq<u8> = reader.source();
    let ghost start: int = reader.cursor() / 8;
    if !reader.is_aligned() {
        return Err(DecodeError::UnalignedByteRead);
    }
    loop
        invariant
            data == old(reader).source(),
            start == old(reader).cursor() / 8,
            old(reader).aligned(),
            reader.source() == data,
            reader.aligned(),
            0 <= reader.cursor() <= data.len() * 8,
            start <= reader.cursor() / 8,
            length >= 1,
            run_length(data, start) == run_length_from(data, reader.cursor() / 8, length as int),
        decreases data.len() - reader.cursor() / 8,
    {
        let part: u8 = match reader.read_u8() {
            Ok(byte) => byte,
            Err(e) => {
                return Err(e);
            },
        };
        length = match length.checked_add(part as u64) {
            Some(sum) => sum,
            None => {
                return Err(DecodeError::RunLengthOverflow);
            },
        };
        if part != 255 {
            return Ok(length);
        }
    }
}

/// Reads one stored pixel and appends it, decoded, to `pixels`: the stored
/// bytes go into a scratch buffer of four `0xff` bytes, behind the pad byte
/// if the layout has one; bytes 0 and 2 of the buffer change places; the
/// first `bpp` bytes of the buffer are the pixel.
pub fn copy_true_color(reader: &mut BitReader, pixels: &mut Vec<u8>, layout: &PixelLayout) -> (done:
    Result<(), DecodeError>)
    requires
        layout.well_formed(),
    ensures
        final(reader).source() == old(reader).source(),
        match done {
            Ok(_) => {
                &&& old(reader).aligned()
                &&& final(reader).aligned()
                &&& old(reader).cursor() / 8 + layout.compressed_bpp <= old(reader).source().len()
                &&& final(reader).cursor() == old(reader).cursor() + 8 * layout.compressed_bpp
                &&& final(pixels)@ == old(pixels)@ + true_color_pixel(
                    *layout,
                    old(reader).source(),
                    old(reader).cursor() / 8,
                )
            },
            Err(e) => {
                &&& final(pixels)@ == old(pixels)@
                &&& final(reader).cursor() == old(reader).cursor()
                &&& if old(reader).aligned() {
                    e == DecodeError::UnexpectedEof && old(reader).cursor() / 8
                        + layout.compressed_bpp > old(reader).source().len()
                } else {
                    e == DecodeError::UnalignedByteRead
                }
            },
        },
{
    let ghost data: Seq<u8> = reader.source();
    let ghost at: int = reader.cursor() / 8;
    let ghost before: Seq<u8> = pixels@;
    let stored: &[u8] = match reader.read_exact(layout.compressed_bpp) {
        Ok(bytes) => bytes,
        Err(e) => {
            return Err(e);
        },
    };
    let first: usize = if layout.pad {
        1
    } else {
        0
    };
    let mut j: usize = 0;
    while j < layout.bpp
        invariant
            j <= layout.bpp,
            layout.well_formed(),
            first == (if layout.pad {
                1int
            } else {
                0int
            }),
            0 <= at,
            at + layout.compressed_bpp <= data.len(),
            stored@ == data.subrange(at, at + layout.compressed_bpp),
            pixels@ == before + true_color_pixel(*layout, data, at).take(j as int),
        decreases layout.bpp - j,
    {
        let i: usize = if j == 0 {
            2
        } else if j == 2 {
            0
        } else {
            j
        };
        let byte: u8 = if first <= i && i < first + layout.compressed_bpp {
            stored[i - first]
        } else {
            0xff
        };
        pixels.push(byte);
        assert(pixels@ == before + true_color_pixel(*layout, data, at).take(j + 1));
        j = j + 1;
    }
    assert(true_color_pixel(*layout, data, at).take(layout.bpp as int) == true_color_pixel(
        *layout,
        data,
        at,
    ));
    Ok(())
}

/// Appends slot number `index` of the palette to `pixels`. A slot that the
/// palette does not have is an error, and nothing is appended.
pub fn copy_indexed(palette: &Vec<u8>, pixels: &mut Vec<u8>, bpp: usize, index: u8) -> (done:
    Result<(), DecodeError>)
    requires
        bpp <= 4,
    ensures
        match done {
            Ok(_) => {
                &&& has_entry(palette@, bpp as int, index as int)
                &&& final(pixels)@ == old(pixels)@ + palette_entry(
                    palette@,
                    bpp as int,
                    index as int,
                )
            },
            Err(e) => {
                &&& e == DecodeError::InvalidPaletteIndex
                &&& !has_entry(palette@, bpp as int, index as int)
                &&& final(pixels)@ == old(pixels)@
            },
        },
{
    assert(index * bpp <= 255 * 4) by (nonlinear_arith)
        requires
            index <= 255,
            bpp <= 4,
    ;
    let start: usize = index as usize * bpp;
    if palette.len() < bpp || start > palette.len() - bpp {
        return Err(DecodeError::InvalidPaletteIndex);
    }
    let ghost before: Seq<u8> = pixels@;
    let mut j: usize = 0;
    while j < bpp
        invariant
            j <= bpp,
            start + bpp <= palette.len(),
            pixels@ == before + palette@.subrange(start as int, start + j),
        decreases bpp - j,
    {
        pixels.push(palette[start + j]);
        assert(pixels@ == before + palette@.subrange(start as int, start + j + 1));
        j = j + 1;
    }
    Ok(())
}

/// Reads `count` stored pixels and appends them, decoded, to `pixels`.
fn read_pixels(
    reader: &mut BitReader,
    pixels: &mut Vec<u8>,
    layout: &PixelLayout,
    count: usize,
) -> (done: Result<(), DecodeError>)
    requires
        layout.well_formed(),
        old(reader).aligned(),
        0 <= old(reader).cursor() <= old(reader).source().len() * 8,
    ensures
        final(reader).source() == old(reader).source(),
        match done {
            Ok(_) => {
                &&& final(reader).aligned()
                &&& old(reader).cursor() / 8 + count * layout.compressed_bpp <= old(
                    reader,
                ).source().len()
                &&& final(reader).cursor() == old(reader).cursor() + 8 * (count
                    * layout.compressed_bpp)
                &&& final(pixels)@ == old(pixels)@ + true_color_pixels(
                    *layout,
                    old(reader).source(),
                    old(reader).cursor() / 8,
                    count as nat,
                )
            },
            Err(e) => {
                &&& e == DecodeError::UnexpectedEof
                &&& old(reader).cursor() / 8 + count * layout.compressed_bpp > old(
                    reader,
                ).source().len()
            },
        },
{
    let ghost data: Seq<u8> = reader.source();
    let ghost at: int = reader.cursor() / 8;
    let ghost before: Seq<u8> = pixels@;
    let ghost width: int = layout.compressed_bpp as int;
    let mut done: usize = 0;
    assert(reader.cursor() == at * 8);
    while done < count
        invariant
            done <= count,
            layout.well_formed(),
            width == layout.compressed_bpp,
            data == old(reader).source(),
            at == old(reader).cursor() / 8,
            reader.source() == data,
            reader.aligned(),
            reader.cursor() == (at + done * width) * 8,
            at + done * width <= data.len(),
            pixels@ == before + true_color_pixels(*layout, data, at, done as nat),
        decreases count - done,
    {
        assert((done + 1) * width == done * width + width) by (nonlinear_arith);
        match copy_true_color(reader, pixels, layout) {
            Ok(_) => {},
            Err(e) => {
                assert((done + 1) * width <= count * width) by (nonlinear_arith)
                    requires
                        done + 1 <= count,
                        0 <= width,
                ;
                return Err(e);
            },
        }
        assert(pixels@ == before + true_color_pixels(*layout, data, at, (done + 1) as nat));
        done = done + 1;
    }
    Ok(())
}

/// Appends `count` copies of `pixel` to `pixels`.
fn repeat_pixel(pixels: &mut Vec<u8>, pixel: &Vec<u8>, count: u64)
    ensures
        final(pixels)@ == old(pixels)@ + repeated(pixel@, count as nat),
{
    let ghost before: Seq<u8> = pixels@;
    let mut done: u64 = 0;
    while done < count
        invariant
            done <= count,
            pixels@ == before + repeated(pixel@, done as nat),
        decreases count - done,
    {
        let ghost so_far: Seq<u8> = pixels@;
        let mut j: usize = 0;
        while j < pixel.len()
            invariant
                j <= pixel.len(),
                pixels@ == so_far + pixel@.take(j as int),
            decreases pixel.len() - j,
        {
            pixels.push(pixel[j]);
            assert(pixels@ == so_far + pixel@.take(j + 1));
            j = j + 1;
        }
        assert(pixel@.take(pixel.len() as int) == pixel@);
        assert(pixels@ == before + repeated(pixel@, (done + 1) as nat));
        done = done + 1;
    }
}

/// Appends `count` copies of slot number `index` of the palette to
/// `pixels`, or fails and appends nothing where the palette has no such slot.
fn repeat_indexed(
    palette: &Vec<u8>,
    pixels: &mut Vec<u8>,
    bpp: usize,
    index: u8,
    count: u64,
) -> (done: Result<(), DecodeError>)
    requires
        bpp <= 4,
        count >= 1,
    ensures
        match done {
            Ok(_) => {
                &&& has_entry(palette@, bpp as int, index as int)
                &&& final(pixels)@ == old(pixels)@ + repeated(
                    palette_entry(palette@, bpp as int, index as int),
                    count as nat,
                )
            },
            Err(e) => {
                &&& e == DecodeError::InvalidPaletteIndex
                &&& !has_entry(palette@, bpp as int, index as int)
                &&& final(pixels)@ == old(pixels)@
            },
        },
{
    let ghost before: Seq<u8> = pixels@;
    let ghost entry: Seq<u8> = palette_entry(palette@, bpp as int, index as int);
    let mut done: u64 = 0;
    while done < count
        invariant
            done <= count,
            bpp <= 4,
            entry == palette_entry(palette@, bpp as int, index as int),
            done >= 1 ==> has_entry(palette@, bpp as int, index as int),
            pixels@ == before + repeated(entry, done as nat),
            before == old(pixels)@,
        decreases count - done,
    {
        match copy_indexed(palette, pixels, bpp, index) {
            Ok(_) => {},
            Err(e) => {
                assert(pixels@ == before);
                return Err(e);
            },
        }
        assert(pixels@ == before + repeated(entry, (done + 1) as nat));
        done = done + 1;
    }
    Ok(())
}

/// `head` put in front of the pixels of a result.
pub open spec fn prepend(head: Seq<u8>, tail: Result<(Seq<u8>, int), DecodeError>) -> Result<
    (Seq<u8>, int),
    DecodeError,
> {
    match tail {
        Ok((rest, end)) => Ok((head + rest, end)),
        Err(e) => Err(e),
    }
}

proof fn lemma_prepend_twice(
    first: Seq<u8>,
    second: Seq<u8>,
    tail: Result<(Seq<u8>, int), DecodeError>,
)
    ensures
        prepend(first, prepend(second, tail)) == prepend(first + second, tail),
{
    match tail {
        Ok((rest, end)) => {
            assert(first + (second + rest) =~= (first + second) + rest);
        },
        Err(e) => {},
    }
}

proof fn lemma_prepend_nothing(tail: Result<(Seq<u8>, int), DecodeError>)
    ensures
        prepend(Seq::empty(), tail) == tail,
{
    match tail {
        Ok((rest, end)) => {
            assert(Seq::<u8>::empty() + rest =~= rest);
        },
        Err(e) => {},
    }
}

/// Reads runs of true-colour pixels until `budget` pixels are filled.
fn read_true_color_runs(
    reader: &mut BitReader,
    pixels: &mut Vec<u8>,
    layout: &PixelLayout,
    budget: u64,
) -> (done: Result<(), DecodeError>)
    requires
        layout.well_formed(),
        old(reader).aligned(),
        0 <= old(reader).cursor() <= old(reader).source().len() * 8,
        old(pixels)@.len() == 0,
    ensures
        final(reader).source() == old(reader).source(),
        match done {
            Ok(_) => {
                &&& final(reader).aligned()
                &&& 0 <= final(reader).cursor() <= final(reader).source().len() * 8
                &&& true_color_runs(
                    *layout,
                    old(reader).source(),
                    old(reader).cursor() / 8,
                    budget as nat,
                ) == Ok::<(Seq<u8>, int), DecodeError>((final(pixels)@, final(reader).cursor() / 8))
            },
            Err(e) => true_color_runs(
                *layout,
                old(reader).source(),
                old(reader).cursor() / 8,
                budget as nat,
            ) == Err::<(Seq<u8>, int), DecodeError>(e),
        },
{
    let ghost data: Seq<u8> = reader.source();
    let ghost whole: Result<(Seq<u8>, int), DecodeError> = true_color_runs(
        *layout,
        data,
        reader.cursor() / 8,
        budget as nat,
    );
    let mut remaining: u64 = budget;
    let mut pixel: Vec<u8> = Vec::new();
    proof {
        lemma_prepend_nothing(whole);
        assert(pixels@ =~= Seq::<u8>::empty());
    }
    while remaining > 0
        invariant
            layout.well_formed(),
            data == old(reader).source(),
            whole == true_color_runs(*layout, data, old(reader).cursor() / 8, budget as nat),
            reader.source() == data,
            reader.aligned(),
            0 <= reader.cursor() <= data.len() * 8,
            whole == prepend(
                pixels@,
                true_color_runs(*layout, data, reader.cursor() / 8, remaining as nat),
            ),
        decreases remaining,
    {
        let ghost at: int = reader.cursor() / 8;
        let ghost so_far: Seq<u8> = pixels@;
        pixel.clear();
        match copy_true_color(reader, &mut pixel, layout) {
            Ok(_) => {},
            Err(e) => {
                return Err(e);
            },
        }
        assert(pixel@ =~= true_color_pixel(*layout, data, at));
        let run: u64 = match read_run_length(reader) {
            Ok(length) => length,
            Err(e) => {
                return Err(e);
            },
        };
        repeat_pixel(pixels, &pixel, run);
        let left: u64 = if run >= remaining {
            0
        } else {
            remaining - run
        };
        proof {
            assert(left as nat == budget_after(remaining as nat, run as int));
            lemma_prepend_twice(
                so_far,
                repeated(pixel@, run as nat),
                true_color_runs(*layout, data, reader.cursor() / 8, left as nat),
            );
        }
        remaining = left;
    }
    proof {
        assert(pixels@ + Seq::<u8>::empty() =~= pixels@);
    }
    Ok(())
}

/// Reads runs of palette entries until `budget` pixels are filled.
fn read_palette_runs(
    reader: &mut BitReader,
    palette: &Vec<u8>,
    pixels: &mut Vec<u8>,
    bpp: usize,
    budget: u64,
) -> (done: Result<(), DecodeError>)
    requires
        bpp <= 4,
        old(reader).aligned(),
        0 <= old(reader).cursor() <= old(reader).source().len() * 8,
        old(pixels)@.len() == 0,
    ensures
        final(reader).source() == old(reader).source(),
        match done {
            Ok(_) => {
                &&& final(reader).aligned()
                &&& 0 <= final(reader).cursor() <= final(reader).source().len() * 8
                &&& palette_runs(
                    old(reader).source(),
                    old(reader).cursor() / 8,
                    palette@,
                    bpp as int,
                    budget as nat,
                ) == Ok::<(Seq<u8>, int), DecodeError>((final(pixels)@, final(reader).cursor() / 8))
            },
            Err(e) => palette_runs(
                old(reader).source(),
                old(reader).cursor() / 8,
                palette@,
                bpp as int,
                budget as nat,
            ) == Err::<(Seq<u8>, int), DecodeError>(e),
        },
{
    let ghost data: Seq<u8> = reader.source();
    let ghost whole: Result<(Seq<u8>, int), DecodeError> = palette_runs(
        data,
        reader.cursor() / 8,
        palette@,
        bpp as int,
        budget as nat,
    );
    let mut remaining: u64 = budget;
    proof {
        lemma_prepend_nothing(whole);
        assert(pixels@ =~= Seq::<u8>::empty());
    }
    while remaining > 0
        invariant
            bpp <= 4,
            data == old(reader).source(),
            whole == palette_runs(
                data,
                old(reader).cursor() / 8,
                palette@,
                bpp as int,
                budget as nat,
            ),
            reader.source() == data,
            reader.aligned(),
            0 <= reader.cursor() <= data.len() * 8,
            whole == prepend(
                pixels@,
                palette_runs(data, reader.cursor() / 8, palette@, bpp as int, remaining as nat),
            ),
        decreases remaining,
    {
        let ghost at: int = reader.cursor() / 8;
        let ghost so_far: Seq<u8> = pixels@;
        let longer: bool = match reader.read_bit() {
            Ok(bit) => bit,
            Err(e) => {
                return Err(e);
            },
        };
        let index: u8 = match reader.read_bits(7) {
            Ok(field) => field,
            Err(e) => {
                return Err(e);
            },
        };
        proof {
            lemma_header_fields(data[at]);
        }
        let run: u64 = if longer {
            match read_run_length(reader) {
                Ok(length) => length,
                Err(e) => {
                    return Err(e);
                },
            }
        } else {
            1
        };
        match repeat_indexed(palette, pixels, bpp, index, run) {
            Ok(_) => {},
            Err(e) => {
                return Err(e);
            },
        }
        let left: u64 = if run >= remaining {
            0
        } else {
            remaining - run
        };
        proof {
            assert(left as nat == budget_after(remaining as nat, run as int));
            lemma_prepend_twice(
                so_far,
                repeated(palette_entry(palette@, bpp as int, index as int), run as nat),
                palette_runs(data, reader.cursor() / 8, palette@, bpp as int, left as nat),
            );
        }
        remaining = left;
    }
    proof {
        assert(pixels@ + Seq::<u8>::empty() =~= pixels@);
    }
    Ok(())
}

/// The first bit of a byte says whether the byte is 128 or more, and the
/// other seven are what is left of it beyond that.
pub proof fn lemma_header_fields(byte: u8)
    ensures
        (bit_field(byte, 0, 1) != 0) == (byte >= 128),
        bit_field(byte, 1, 7) == byte % 128,
{
    assert(1u16 << 1u16 == 2u16) by (bit_vector);
    assert(1u16 << 7u16 == 128u16) by (bit_vector);
    assert((((byte as u16) >> 7u16) & 1u16 != 0) == (byte >= 128)) by (bit_vector);
    assert(((byte as u16) >> 7u16) & 1u16 <= 1u16) by (bit_vector);
    assert(((byte as u16) >> 0u16) & 127u16 == byte % 128) by (bit_vector);
}

/// A packed row that fails stays failed however many more pixels are asked of it.
proof fn lemma_packed_row_error_stays(
    data: Seq<u8>,
    row_start: int,
    palette: Seq<u8>,
    bpp: int,
    bits: int,
    cols: nat,
    more: nat,
)
    requires
        cols <= more,
        packed_row(data, row_start, palette, bpp, bits, cols) is Err,
    ensures
        packed_row(data, row_start, palette, bpp, bits, more) == packed_row(
            data,
            row_start,
            palette,
            bpp,
            bits,
            cols,
        ),
    decreases more,
{
    reveal(packed_row);
    if cols < more {
        lemma_packed_row_error_stays(data, row_start, palette, bpp, bits, cols, (more - 1) as nat);
    }
}

/// Packed rows that fail stay failed however many more rows are asked for.
proof fn lemma_packed_rows_error_stays(
    data: Seq<u8>,
    at: int,
    palette: Seq<u8>,
    bpp: int,
    bits: int,
    width: nat,
    rows: nat,
    more: nat,
)
    requires
        rows <= more,
        packed_rows(data, at, palette, bpp, bits, width, rows) is Err,
    ensures
        packed_rows(data, at, palette, bpp, bits, width, more) == packed_rows(
            data,
            at,
            palette,
            bpp,
            bits,
            width,
            rows,
        ),
    decreases more,
{
    if rows < more {
        lemma_packed_rows_error_stays(data, at, palette, bpp, bits, width, rows, (more - 1) as nat);
    }
}

/// What one more pixel makes of a packed row.
proof fn lemma_packed_row_step(
    data: Seq<u8>,
    row_start: int,
    palette: Seq<u8>,
    bpp: int,
    bits: int,
    col: nat,
    row: Seq<u8>,
)
    requires
        packed_row(data, row_start, palette, bpp, bits, col) == Ok::<Seq<u8>, DecodeError>(row),
    ensures
        packed_row(data, row_start, palette, bpp, bits, col + 1) == (if row_start + (col * bits)
            / 8 >= data.len() {
            Err::<Seq<u8>, DecodeError>(DecodeError::UnexpectedEof)
        } else if !has_entry(palette, bpp, packed_index(data, row_start, bits, col as int) as int) {
            Err::<Seq<u8>, DecodeError>(DecodeError::InvalidPaletteIndex)
        } else {
            Ok::<Seq<u8>, DecodeError>(
                row + palette_entry(
                    palette,
                    bpp,
                    packed_index(data, row_start, bits, col as int) as int,
                ),
            )
        }),
{
    reveal(packed_row);
    assert((col + 1 - 1) as nat == col);
}

/// A field of 1, 2 or 4 bits that starts at a multiple of its width ends
/// within its byte.
proof fn lemma_field_fits(bit_at: int, bits: int)
    requires
        0 <= bit_at,
        bits == 1 || bits == 2 || bits == 4,
        bits == 2 ==> bit_at % 2 == 0,
        bits == 4 ==> bit_at % 4 == 0,
    ensures
        bit_at % 8 + bits <= 8,
        bits == 2 ==> (bit_at + bits) % 2 == 0,
        bits == 4 ==> (bit_at + bits) % 4 == 0,
{
}

/// Reads one row of `width` packed palette indices and skips to the next byte.
fn read_packed_row(
    reader: &mut BitReader,
    palette: &Vec<u8>,
    pixels: &mut Vec<u8>,
    bpp: usize,
    bits: u8,
    width: u16,
) -> (done: Result<(), DecodeError>)
    requires
        bpp <= 4,
        bits == 1 || bits == 2 || bits == 4,
        old(reader).aligned(),
        0 <= old(reader).cursor() <= old(reader).source().len() * 8,
    ensures
        final(reader).source() == old(reader).source(),
        match done {
            Ok(_) => {
                &&& final(reader).aligned()
                &&& 0 <= final(reader).cursor() <= final(reader).source().len() * 8
                &&& final(reader).cursor() / 8 == old(reader).cursor() / 8 + row_bytes(
                    width as int,
                    bits as int,
                )
                &&& packed_row(
                    old(reader).source(),
                    old(reader).cursor() / 8,
                    palette@,
                    bpp as int,
                    bits as int,
                    width as nat,
                ) matches Ok(row)
                &&& final(pixels)@ == old(pixels)@ + row
            },
            Err(e) => packed_row(
                old(reader).source(),
                old(reader).cursor() / 8,
                palette@,
                bpp as int,
                bits as int,
                width as nat,
            ) == Err::<Seq<u8>, DecodeError>(e),
        },
{
    let ghost data: Seq<u8> = reader.source();
    let ghost row_start: int = reader.cursor() / 8;
    let ghost before: Seq<u8> = pixels@;
    let ghost mut row: Seq<u8> = Seq::empty();
    let mut col: u16 = 0;
    let mut bit_at: u32 = 0;
    proof {
        assert(before + row =~= before);
        assert(col * bits == 0) by (nonlinear_arith)
            requires
                col == 0,
        ;
        assert(packed_row(data, row_start, palette@, bpp as int, bits as int, 0) == Ok::<
            Seq<u8>,
            DecodeError,
        >(row)) by {
            reveal(packed_row);
        }
    }
    while col < width
        invariant
            col <= width,
            bpp <= 4,
            bits == 1 || bits == 2 || bits == 4,
            data == old(reader).source(),
            row_start == old(reader).cursor() / 8,
            reader.source() == data,
            bit_at == col * bits,
            bit_at <= 4 * col,
            bits == 2 ==> bit_at % 2 == 0,
            bits == 4 ==> bit_at % 4 == 0,
            0 <= row_start,
            reader.cursor() == row_start * 8 + bit_at,
            reader.cursor() <= data.len() * 8,
            packed_row(data, row_start, palette@, bpp as int, bits as int, col as nat) == Ok::<
                Seq<u8>,
                DecodeError,
            >(row),
            pixels@ == before + row,
        decreases width - col,
    {
        proof {
            lemma_packed_row_step(
                data,
                row_start,
                palette@,
                bpp as int,
                bits as int,
                col as nat,
                row,
            );
            lemma_field_fits(bit_at as int, bits as int);
            assert((col + 1) * bits == col * bits + bits) by (nonlinear_arith);
        }
        let ghost step: Result<Seq<u8>, DecodeError> = packed_row(
            data,
            row_start,
            palette@,
            bpp as int,
            bits as int,
            (col + 1) as nat,
        );
        let index: u8 = match reader.read_bits(bits as usize) {
            Ok(field) => field,
            Err(e) => {
                proof {
                    assert(step == Err::<Seq<u8>, DecodeError>(e));
                    lemma_packed_row_error_stays(
                        data,
                        row_start,
                        palette@,
                        bpp as int,
                        bits as int,
                        (col + 1) as nat,
                        width as nat,
                    );
                }
                return Err(e);
            },
        };
        assert(index == packed_index(data, row_start, bits as int, col as int));
        match copy_indexed(palette, pixels, bpp, index) {
            Ok(_) => {},
            Err(e) => {
                proof {
                    assert(step == Err::<Seq<u8>, DecodeError>(e));
                    lemma_packed_row_error_stays(
                        data,
                        row_start,
                        palette@,
                        bpp as int,
                        bits as int,
                        (col + 1) as nat,
                        width as nat,
                    );
                }
                return Err(e);
            },
        }
        proof {
            let entry: Seq<u8> = palette_entry(palette@, bpp as int, index as int);
            assert(before + (row + entry) =~= (before + row) + entry);
            row = row + entry;
        }
        col = col + 1;
        bit_at = bit_at + bits as u32;
    }
    reader.align();
    Ok(())
}

/// Reads the `height` packed rows of a tile.
fn read_packed_rows(
    reader: &mut BitReader,
    palette: &Vec<u8>,
    pixels: &mut Vec<u8>,
    bpp: usize,
    bits: u8,
    width: u16,
    height: u16,
) -> (done: Result<(), DecodeError>)
    requires
        bpp <= 4,
        bits == 1 || bits == 2 || bits == 4,
        old(reader).aligned(),
        0 <= old(reader).cursor() <= old(reader).source().len() * 8,
        old(pixels)@.len() == 0,
    ensures
        final(reader).source() == old(reader).source(),
        match done {
            Ok(_) => {
                &&& final(reader).aligned()
                &&& 0 <= final(reader).cursor() <= final(reader).source().len() * 8
                &&& packed_rows(
                    old(reader).source(),
                    old(reader).cursor() / 8,
                    palette@,
                    bpp as int,
                    bits as int,
                    width as nat,
                    height as nat,
                ) == Ok::<(Seq<u8>, int), DecodeError>((final(pixels)@, final(reader).cursor() / 8))
            },
            Err(e) => packed_rows(
                old(reader).source(),
                old(reader).cursor() / 8,
                palette@,
                bpp as int,
                bits as int,
                width as nat,
                height as nat,
            ) == Err::<(Seq<u8>, int), DecodeError>(e),
        },
{
    let ghost data: Seq<u8> = reader.source();
    let ghost at: int = reader.cursor() / 8;
    let mut row: u16 = 0;
    proof {
        assert(pixels@ =~= Seq::<u8>::empty());
    }
    while row < height
        invariant
            row <= height,
            bpp <= 4,
            bits == 1 || bits == 2 || bits == 4,
            data == old(reader).source(),
            at == old(reader).cursor() / 8,
            reader.source() == data,
            reader.aligned(),
            0 <= reader.cursor() <= data.len() * 8,
            packed_rows(data, at, palette@, bpp as int, bits as int, width as nat, row as nat)
                == Ok::<(Seq<u8>, int), DecodeError>((pixels@, reader.cursor() / 8)),
        decreases height - row,
    {
        match read_packed_row(reader, palette, pixels, bpp, bits, width) {
            Ok(_) => {},
            Err(e) => {
                proof {
                    lemma_packed_rows_error_stays(
                        data,
                        at,
                        palette@,
                        bpp as int,
                        bits as int,
                        width as nat,
                        (row + 1) as nat,
                        height as nat,
                    );
                }
                return Err(e);
            },
        }
        row = row + 1;
    }
    Ok(())
}

/// Decoded pixels take `bpp` bytes each.
proof fn lemma_true_color_pixels_len(layout: PixelLayout, data: Seq<u8>, at: int, count: nat)
    ensures
        true_color_pixels(layout, data, at, count).len() == count * layout.bpp,
    decreases count,
{
    if count > 0 {
        lemma_true_color_pixels_len(layout, data, at, (count - 1) as nat);
        assert(count * layout.bpp == (count - 1) * layout.bpp + layout.bpp) by (nonlinear_arith);
    } else {
        assert(count * layout.bpp == 0) by (nonlinear_arith)
            requires
                count == 0,
        ;
    }
}

/// Reads one tile of `width` by `height` pixels: the header byte, the
/// palette, and the pixels in the form the header stands for. A header that
/// stands for nothing fails the tile once its palette has been read.
pub fn decode_tile(reader: &mut BitReader, layout: &PixelLayout, width: u16, height: u16) -> (pixels:
    Result<Vec<u8>, DecodeError>)
    requires
        layout.well_formed(),
        old(reader).aligned(),
    ensures
        final(reader).source() == old(reader).source(),
        match pixels {
            Ok(bytes) => {
                &&& final(reader).aligned()
                &&& 0 <= final(reader).cursor() <= final(reader).source().len() * 8
                &&& tile(
                    *layout,
                    old(reader).source(),
                    old(reader).cursor() / 8,
                    width as nat,
                    height as nat,
                ) == Ok::<(Seq<u8>, int), DecodeError>((bytes@, final(reader).cursor() / 8))
            },
            Err(e) => tile(
                *layout,
                old(reader).source(),
                old(reader).cursor() / 8,
                width as nat,
                height as nat,
            ) == Err::<(Seq<u8>, int), DecodeError>(e),
        },
{
    let ghost data: Seq<u8> = reader.source();
    let ghost at: int = reader.cursor() / 8;
    let is_rle: bool = match reader.read_bit() {
        Ok(bit) => bit,
        Err(e) => {
            return Err(e);
        },
    };
    let palette_size: u8 = match reader.read_bits(7) {
        Ok(field) => field,
        Err(e) => {
            return Err(e);
        },
    };
    proof {
        lemma_header_fields(data[at]);
    }
    let mut palette: Vec<u8> = Vec::new();
    match read_pixels(reader, &mut palette, layout, palette_size as usize) {
        Ok(_) => {},
        Err(e) => {
            return Err(e);
        },
    }
    proof {
        assert(palette@ =~= true_color_pixels(*layout, data, at + 1, palette_size as nat));
        lemma_true_color_pixels_len(*layout, data, at + 1, palette_size as nat);
    }
    assert(width * height <= 65535 * 65535) by (nonlinear_arith)
        requires
            width <= 65535,
            height <= 65535,
    ;
    let count: u32 = width as u32 * height as u32;
    let mut pixels: Vec<u8> = Vec::new();
    let done: Result<(), DecodeError> = match Subencoding::classify(is_rle, palette_size) {
        None => Err(DecodeError::InvalidSubencoding),
        Some(Subencoding::TrueColor) => {
            let read: Result<(), DecodeError> = read_pixels(
                reader,
                &mut pixels,
                layout,
                count as usize,
            );
            proof {
                if read is Ok {
                    assert(pixels@ =~= true_color_pixels(
                        *layout,
                        data,
                        at + 1 + palette_size * layout.compressed_bpp,
                        count as nat,
                    ));
                }
            }
            read
        },
        Some(Subencoding::Solid) => {
            if count > 0 {
                let filled: Result<(), DecodeError> = repeat_indexed(
                    &palette,
                    &mut pixels,
                    layout.bpp,
                    0,
                    count as u64,
                );
                proof {
                    assert(has_entry(palette@, layout.bpp as int, 0));
                    assert(pixels@ =~= repeated(
                        palette_entry(palette@, layout.bpp as int, 0),
                        count as nat,
                    ));
                }
                filled
            } else {
                proof {
                    assert(pixels@ =~= repeated(
                        palette_entry(palette@, layout.bpp as int, 0),
                        count as nat,
                    ));
                }
                Ok(())
            }
        },
        Some(Subencoding::Packed { bits }) => read_packed_rows(
            reader,
            &palette,
            &mut pixels,
            layout.bpp,
            bits,
            width,
            height,
        ),
        Some(Subencoding::TrueColorRle) => read_true_color_runs(
            reader,
            &mut pixels,
            layout,
            count as u64,
        ),
        Some(Subencoding::PaletteRle) => read_palette_runs(
            reader,
            &palette,
            &mut pixels,
            layout.bpp,
            count as u64,
        ),
    };
    match done {
        Ok(_) => Ok(pixels),
        Err(e) => Err(e),
    }
}

/// Tiles that fail stay failed however many more are asked for.
proof fn lemma_tiles_error_stays(
    layout: PixelLayout,
    rect: Rect,
    data: Seq<u8>,
    count: nat,
    more: nat,
)
    requires
        count <= more,
        tiles(layout, rect, data, count) is Err,
    ensures
        tiles(layout, rect, data, more) == tiles(layout, rect, data, count),
    decreases more,
{
    reveal(tiles);
    if count < more {
        lemma_tiles_error_stays(layout, rect, data, count, (more - 1) as nat);
    }
}

/// With no tile read, nothing is decoded and nothing is taken.
proof fn lemma_tiles_none(layout: PixelLayout, rect: Rect, data: Seq<u8>)
    ensures
        tiles(layout, rect, data, 0) == Ok::<(Seq<PatchModel>, int), DecodeError>(
            (Seq::empty(), 0),
        ),
{
    reveal(tiles);
}

/// What one more tile makes of the tiles before it.
proof fn lemma_tiles_step(
    layout: PixelLayout,
    rect: Rect,
    data: Seq<u8>,
    count: nat,
    before: Seq<PatchModel>,
    at: int,
)
    requires
        tiles(layout, rect, data, count) == Ok::<(Seq<PatchModel>, int), DecodeError>(
            (before, at),
        ),
    ensures
        tiles(layout, rect, data, count + 1) == (match tile(
            layout,
            data,
            at,
            tile_rect(rect, count as int).width as nat,
            tile_rect(rect, count as int).height as nat,
        ) {
            Err(e) => Err::<(Seq<PatchModel>, int), DecodeError>(e),
            Ok((pixels, next)) => Ok::<(Seq<PatchModel>, int), DecodeError>(
                (
                    before.push(
                        PatchModel {
                            data: pixels,
                            rect: tile_rect(rect, count as int),
                            kind: PatchKind::Raw,
                        },
                    ),
                    next,
                ),
            ),
        }),
{
    reveal(tiles);
    assert((count + 1 - 1) as nat == count);
}

/// The tile in row `row` and column `column` of the grid is tile number
/// `row * columns + column`, and lies 64 pixels further right and down for
/// each column and row before it.
pub proof fn lemma_tile_rect(rect: Rect, row: int, column: int)
    requires
        rect.fits(),
        0 <= row < tile_rows(rect),
        0 <= column < tile_columns(rect),
    ensures
        0 <= row * tile_columns(rect) + column < tile_count(rect),
        tile_rect(rect, row * tile_columns(rect) + column) == (Rect {
            x: (rect.x + column * 64) as u16,
            y: (rect.y + row * 64) as u16,
            width: tile_span(rect.width as int, column) as u16,
            height: tile_span(rect.height as int, row) as u16,
        }),
        rect.x + column * 64 + tile_span(rect.width as int, column) <= 0xffff,
        rect.y + row * 64 + tile_span(rect.height as int, row) <= 0xffff,
        1 <= tile_span(rect.width as int, column) <= 64,
        1 <= tile_span(rect.height as int, row) <= 64,
{
    let columns: int = tile_columns(rect) as int;
    let rows: int = tile_rows(rect) as int;
    assert(0 <= row * columns) by (nonlinear_arith)
        requires
            0 <= row,
            0 <= columns,
    ;
    assert((row + 1) * columns <= rows * columns) by (nonlinear_arith)
        requires
            row + 1 <= rows,
            0 <= columns,
    ;
    assert((row + 1) * columns == row * columns + columns) by (nonlinear_arith);
    lemma_fundamental_div_mod_converse(row * columns + column, columns, row, column);
}

/// Decodes the inflated bytes of one rectangle: one patch for each tile,
/// row by row, with the tiles at the right and bottom edges clipped to the
/// rectangle. Bytes left over behind the last tile fail the rectangle.
pub fn decode_tiles(format: &PixelFormat, rect: &Rect, data: &[u8]) -> (patches: Result<
    Vec<ImagePatch>,
    DecodeError,
>)
    requires
        format.well_formed(),
        rect.fits(),
    ensures
        match patches {
            Ok(list) => decoded(format.spec_layout(), *rect, data@) == Ok::<
                Seq<PatchModel>,
                DecodeError,
            >(patch_models(list@)),
            Err(e) => decoded(format.spec_layout(), *rect, data@) == Err::<
                Seq<PatchModel>,
                DecodeError,
            >(e),
        },
{
    let layout: PixelLayout = format.layout();
    let mut reader: BitReader = BitReader::new(ByteReader::new(data));
    let mut patches: Vec<ImagePatch> = Vec::new();
    let columns: u32 = (rect.width as u32 + 63) / 64;
    let rows: u32 = (rect.height as u32 + 63) / 64;
    let mut row: u32 = 0;
    let ghost mut index: nat = 0;
    proof {
        assert(patch_models(patches@) =~= Seq::<PatchModel>::empty());
        lemma_tiles_none(layout, *rect, data@);
        assert(row * columns == 0) by (nonlinear_arith)
            requires
                row == 0,
        ;
    }
    while row < rows
        invariant
            row <= rows,
            layout.well_formed(),
            layout == format.spec_layout(),
            rect.fits(),
            columns == tile_columns(*rect),
            rows == tile_rows(*rect),
            index == row * columns,
            reader.source() == data@,
            reader.aligned(),
            0 <= reader.cursor() <= data@.len() * 8,
            tiles(layout, *rect, data@, index) == Ok::<(Seq<PatchModel>, int), DecodeError>(
                (patch_models(patches@), reader.cursor() / 8),
            ),
        decreases rows - row,
    {
        let mut column: u32 = 0;
        while column < columns
            invariant
                row < rows,
                column <= columns,
                layout.well_formed(),
                layout == format.spec_layout(),
                rect.fits(),
                columns == tile_columns(*rect),
                rows == tile_rows(*rect),
                index == row * columns + column,
                reader.source() == data@,
                reader.aligned(),
                0 <= reader.cursor() <= data@.len() * 8,
                tiles(layout, *rect, data@, index) == Ok::<(Seq<PatchModel>, int), DecodeError>(
                    (patch_models(patches@), reader.cursor() / 8),
                ),
            decreases columns - column,
        {
            let ghost before: Seq<ImagePatch> = patches@;
            proof {
                lemma_tile_rect(*rect, row as int, column as int);
                lemma_tiles_step(
                    layout,
                    *rect,
                    data@,
                    index,
                    patch_models(before),
                    reader.cursor() / 8,
                );
            }
            let x: u16 = (column * 64) as u16;
            let y: u16 = (row * 64) as u16;
            let width: u16 = if rect.width - x >= 64 {
                64
            } else {
                rect.width - x
            };
            let height: u16 = if rect.height - y >= 64 {
                64
            } else {
                rect.height - y
            };
            let pixels: Vec<u8> = match decode_tile(&mut reader, &layout, width, height) {
                Ok(bytes) => bytes,
                Err(e) => {
                    proof {
                        lemma_tiles_error_stays(
                            layout,
                            *rect,
                            data@,
                            index + 1,
                            tile_count(*rect),
                        );
                    }
                    return Err(e);
                },
            };
            let patch: ImagePatch = ImagePatch {
                data: pixels,
                rect: Rect { x: rect.x + x, y: rect.y + y, width, height },
                kind: PatchKind::Raw,
            };
            patches.push(patch);
            proof {
                assert(patch_models(patches@) =~= patch_models(before).push(patch@));
                index = index + 1;
            }
            column = column + 1;
        }
        row = row + 1;
        proof {
            assert(row * columns == (row - 1) * columns + columns) by (nonlinear_arith);
        }
    }
    proof {
        assert(index == tile_count(*rect));
    }
    let inner: ByteReader = match reader.into_inner() {
        Ok(bytes) => bytes,
        Err(e) => {
            return Err(e);
        },
    };
    match inner.finish() {
        Ok(_) => Ok(patches),
        Err(e) => Err(e),
    }
}

/// A tile whose header stands for no subencoding fails, whatever follows
/// the header; where the bytes of its palette are there, it fails as an
/// invalid subencoding.
pub proof fn lemma_undefined_subencoding_fails(
    layout: PixelLayout,
    data: Seq<u8>,
    at: int,
    width: nat,
    height: nat,
)
    requires
        0 <= at < data.len(),
        classify(data[at] >= 128, data[at] % 128) is None,
    ensures
        tile(layout, data, at, width, height) is Err,
        at + 1 + (data[at] % 128) * layout.compressed_bpp <= data.len() ==> tile(
            layout,
            data,
            at,
            width,
            height,
        ) == Err::<(Seq<u8>, int), DecodeError>(DecodeError::InvalidSubencoding),
{
}

/// A tile that fails leaves nothing of its rectangle: where the tiles
/// before it were read and the tile itself fails, the rectangle fails with
/// the tile's error and yields no patch.
pub proof fn lemma_failed_tile_fails_rectangle(
    layout: PixelLayout,
    rect: Rect,
    data: Seq<u8>,
    index: nat,
)
    requires
        index < tile_count(rect),
        tiles(layout, rect, data, index) is Ok,
        tile(
            layout,
            data,
            tiles(layout, rect, data, index)->Ok_0.1,
            tile_rect(rect, index as int).width as nat,
            tile_rect(rect, index as int).height as nat,
        ) is Err,
    ensures
        decoded(layout, rect, data) == Err::<Seq<PatchModel>, DecodeError>(
            tile(
                layout,
                data,
                tiles(layout, rect, data, index)->Ok_0.1,
                tile_rect(rect, index as int).width as nat,
                tile_rect(rect, index as int).height as nat,
            )->Err_0,
        ),
{
    let read = tiles(layout, rect, data, index)->Ok_0;
    lemma_tiles_step(layout, rect, data, index, read.0, read.1);
    lemma_tiles_error_stays(layout, rect, data, index + 1, tile_count(rect));
}

proof fn lemma_tiles_geometry(layout: PixelLayout, rect: Rect, data: Seq<u8>, count: nat)
    requires
        tiles(layout, rect, data, count) is Ok,
    ensures
        tiles(layout, rect, data, count)->Ok_0.0.len() == count,
        forall|k: int|
            0 <= k < count ==> {
                &&& (#[trigger] tiles(layout, rect, data, count)->Ok_0.0[k]).rect == tile_rect(
                    rect,
                    k,
                )
                &&& tiles(layout, rect, data, count)->Ok_0.0[k].kind == PatchKind::Raw
            },
    decreases count,
{
    reveal(tiles);
    if count > 0 {
        lemma_tiles_geometry(layout, rect, data, (count - 1) as nat);
    }
}

/// A rectangle decodes to one patch for each tile of its grid, in the
/// order of the grid, and each patch fills the region of its tile: 64 by
/// 64 pixels, or less at the right and bottom edges of the rectangle.
pub proof fn lemma_decoded_geometry(layout: PixelLayout, rect: Rect, data: Seq<u8>)
    requires
        decoded(layout, rect, data) is Ok,
    ensures
        decoded(layout, rect, data)->Ok_0.len() == tile_count(rect),
        forall|k: int|
            0 <= k < tile_count(rect) ==> {
                &&& (#[trigger] decoded(layout, rect, data)->Ok_0[k]).rect == tile_rect(rect, k)
                &&& decoded(layout, rect, data)->Ok_0[k].kind == PatchKind::Raw
            },
{
    lemma_tiles_geometry(layout, rect, data, tile_count(rect));
}

/// The bytes that a run of `length` pixels is written with: a byte of 255
/// for every 255 pixels beyond the first, and a last byte for the rest.
pub open spec fn run_length_bytes(length: nat) -> Seq<u8>
    decreases length,
{
    if length > 255 {
        seq![255u8] + run_length_bytes((length - 255) as nat)
    } else {
        seq![(length - 1) as u8]
    }
}

proof fn lemma_run_length_from_bytes(data: Seq<u8>, at: int, total: int, length: nat)
    requires
        0 <= at,
        1 <= length,
        0 <= total,
        total + length - 1 <= u64::MAX,
        at + run_length_bytes(length).len() <= data.len(),
        data.subrange(at, at + run_length_bytes(length).len()) == run_length_bytes(length),
    ensures
        run_length_from(data, at, total) == Ok::<(int, int), DecodeError>(
            (total + length - 1, at + run_length_bytes(length).len()),
        ),
    decreases length,
{
    let bytes: Seq<u8> = run_length_bytes(length);
    assert(data[at] == data.subrange(at, at + bytes.len())[0]);
    if length > 255 {
        let rest: Seq<u8> = run_length_bytes((length - 255) as nat);
        assert(bytes == seq![255u8] + rest);
        assert(data[at] == 255);
        assert(data.subrange(at + 1, at + 1 + rest.len()) =~= rest) by {
            assert forall|i: int| 0 <= i < rest.len() implies data.subrange(
                at + 1,
                at + 1 + rest.len(),
            )[i] == rest[i] by {
                assert(data[at + 1 + i] == data.subrange(at, at + bytes.len())[i + 1]);
                assert(bytes[i + 1] == rest[i]);
            }
        }
        lemma_run_length_from_bytes(data, at + 1, total + 255, (length - 255) as nat);
    } else {
        assert(bytes.len() == 1);
        assert(data[at] == (length - 1) as u8);
    }
}

/// A run length reads back as it was written: wherever the bytes of a run
/// of `length` pixels stand in the data, the run length read there is
/// `length`, and the place behind it is the place behind the bytes.
pub proof fn lemma_run_length_round_trip(before: Seq<u8>, length: nat, after: Seq<u8>)
    requires
        1 <= length <= u64::MAX,
    ensures
        run_length(before + run_length_bytes(length) + after, before.len() as int) == Ok::<
            (int, int),
            DecodeError,
        >((length as int, (before.len() + run_length_bytes(length).len()) as int)),
{
    let bytes: Seq<u8> = run_length_bytes(length);
    let data: Seq<u8> = before + bytes + after;
    assert(data.subrange(before.len() as int, (before.len() + bytes.len()) as int) =~= bytes);
    lemma_run_length_from_bytes(data, before.len() as int, 1, length);
}

/// The bytes that a four-byte pixel is stored with under a layout: the
/// pixel with its bytes 0 and 2 exchanged, without the pad byte where the
/// layout stores three bytes.
pub open spec fn stored_pixel(layout: PixelLayout, pixel: Seq<u8>) -> Seq<u8> {
    let first: int = if layout.pad {
        1
    } else {
        0
    };
    Seq::new(
        layout.compressed_bpp as nat,
        |k: int|
            pixel[if first + k == 0 {
                2
            } else if first + k == 2 {
                0
            } else {
                first + k
            }],
    )
}

/// The place of the byte that a layout of three stored bytes leaves out of
/// a four-byte pixel as it is decoded.
pub open spec fn pad_place(layout: PixelLayout) -> int {
    if layout.pad {
        2
    } else {
        3
    }
}

/// A pixel reads back as it was stored: a four-byte pixel, stored under a
/// layout and decoded under the same, is the pixel again, provided that
/// the byte which three stored bytes leave out is `0xff`.
pub proof fn lemma_pixel_round_trip(
    layout: PixelLayout,
    before: Seq<u8>,
    pixel: Seq<u8>,
    after: Seq<u8>,
)
    requires
        layout.well_formed(),
        layout.bpp == 4,
        layout.compressed_bpp == 3 || layout.compressed_bpp == 4,
        pixel.len() == 4,
        layout.compressed_bpp == 3 ==> pixel[pad_place(layout)] == 0xff,
    ensures
        true_color_pixel(
            layout,
            before + stored_pixel(layout, pixel) + after,
            before.len() as int,
        ) == pixel,
{
    let stored: Seq<u8> = stored_pixel(layout, pixel);
    let data: Seq<u8> = before + stored + after;
    let decoded_pixel: Seq<u8> = true_color_pixel(layout, data, before.len() as int);
    assert forall|k: int| 0 <= k < stored.len() implies data[before.len() + k] == stored[k] by {}
    assert(decoded_pixel =~= pixel);
}

/// A pixel that a layout can store: four bytes, with `0xff` where three
/// stored bytes leave a byte out.
pub open spec fn storable(layout: PixelLayout, pixel: Seq<u8>) -> bool {
    pixel.len() == 4 && (layout.compressed_bpp == 3 ==> pixel[pad_place(layout)] == 0xff)
}

/// A layout of four-byte pixels, stored with three or four bytes each.
pub open spec fn stores_four_bytes(layout: PixelLayout) -> bool {
    &&& layout.well_formed()
    &&& layout.bpp == 4
    &&& layout.compressed_bpp == 3 || layout.compressed_bpp == 4
}

/// The bytes that pixels are stored with, one pixel after the other.
pub open spec fn stored_pixels(layout: PixelLayout, pixels: Seq<Seq<u8>>) -> Seq<u8>
    decreases pixels.len(),
{
    if pixels.len() == 0 {
        Seq::empty()
    } else {
        stored_pixels(layout, pixels.drop_last()) + stored_pixel(layout, pixels.last())
    }
}

/// The bytes of pixels, one pixel after the other.
pub open spec fn joined(pixels: Seq<Seq<u8>>) -> Seq<u8>
    decreases pixels.len(),
{
    if pixels.len() == 0 {
        Seq::empty()
    } else {
        joined(pixels.drop_last()) + pixels.last()
    }
}

proof fn lemma_stored_pixels_len(layout: PixelLayout, pixels: Seq<Seq<u8>>)
    ensures
        stored_pixels(layout, pixels).len() == pixels.len() * layout.compressed_bpp,
    decreases pixels.len(),
{
    if pixels.len() > 0 {
        lemma_stored_pixels_len(layout, pixels.drop_last());
        assert(pixels.len() * layout.compressed_bpp == (pixels.len() - 1) * layout.compressed_bpp
            + layout.compressed_bpp) by (nonlinear_arith);
    } else {
        assert(pixels.len() * layout.compressed_bpp == 0) by (nonlinear_arith)
            requires
                pixels.len() == 0,
        ;
    }
}

/// Pixels read back as they were stored, wherever their bytes stand.
pub proof fn lemma_pixels_round_trip(
    layout: PixelLayout,
    before: Seq<u8>,
    pixels: Seq<Seq<u8>>,
    after: Seq<u8>,
)
    requires
        stores_four_bytes(layout),
        forall|i: int| 0 <= i < pixels.len() ==> storable(layout, #[trigger] pixels[i]),
    ensures
        true_color_pixels(
            layout,
            before + stored_pixels(layout, pixels) + after,
            before.len() as int,
            pixels.len(),
        ) == joined(pixels),
    decreases pixels.len(),
{
    if pixels.len() > 0 {
        let head: Seq<Seq<u8>> = pixels.drop_last();
        let last: Seq<u8> = pixels.last();
        let data: Seq<u8> = before + stored_pixels(layout, pixels) + after;
        assert forall|i: int| 0 <= i < head.len() implies storable(layout, #[trigger] head[i]) by {
            assert(head[i] == pixels[i]);
        }
        assert(storable(layout, pixels[pixels.len() - 1]));
        assert(data =~= before + stored_pixels(layout, head) + (stored_pixel(layout, last)
            + after));
        lemma_pixels_round_trip(layout, before, head, stored_pixel(layout, last) + after);
        lemma_stored_pixels_len(layout, head);
        assert(data =~= (before + stored_pixels(layout, head)) + stored_pixel(layout, last)
            + after);
        lemma_pixel_round_trip(layout, before + stored_pixels(layout, head), last, after);
        assert((pixels.len() - 1) as nat == head.len());
    }
}

/// `part` stores a tile of `width` by `height` pixels with these bytes:
/// wherever `part` stands in the data, whatever stands before and behind
/// it, the tile read at its start has these bytes and ends where `part` ends.
pub open spec fn stores_tile(
    layout: PixelLayout,
    part: Seq<u8>,
    pixels: Seq<u8>,
    width: nat,
    height: nat,
) -> bool {
    forall|before: Seq<u8>, after: Seq<u8>|
        #[trigger] tile(layout, before + part + after, before.len() as int, width, height) == Ok::<
            (Seq<u8>, int),
            DecodeError,
        >((pixels, (before.len() + part.len()) as int))
}

/// A tile of true-colour pixels reads back as it was written: a zero
/// header and the stored pixels decode to the pixels.
pub proof fn lemma_true_color_tile_round_trip(
    layout: PixelLayout,
    pixels: Seq<Seq<u8>>,
    width: nat,
    height: nat,
)
    requires
        stores_four_bytes(layout),
        pixels.len() == width * height,
        forall|i: int| 0 <= i < pixels.len() ==> storable(layout, #[trigger] pixels[i]),
    ensures
        stores_tile(
            layout,
            seq![0u8] + stored_pixels(layout, pixels),
            joined(pixels),
            width,
            height,
        ),
{
    let part: Seq<u8> = seq![0u8] + stored_pixels(layout, pixels);
    lemma_stored_pixels_len(layout, pixels);
    assert forall|before: Seq<u8>, after: Seq<u8>|
        #[trigger] tile(layout, before + part + after, before.len() as int, width, height) == Ok::<
            (Seq<u8>, int),
            DecodeError,
        >((joined(pixels), (before.len() + part.len()) as int)) by {
        let data: Seq<u8> = before + part + after;
        assert(data =~= (before + seq![0u8]) + stored_pixels(layout, pixels) + after);
        lemma_pixels_round_trip(layout, before + seq![0u8], pixels, after);
        assert(data[before.len() as int] == 0);
        assert(0 * layout.compressed_bpp == 0);
    }
}

/// A tile of one colour reads back as it was written: a header of one and
/// the stored pixel decode to the pixel, once for each pixel of the tile.
pub proof fn lemma_solid_tile_round_trip(
    layout: PixelLayout,
    pixel: Seq<u8>,
    width: nat,
    height: nat,
)
    requires
        stores_four_bytes(layout),
        storable(layout, pixel),
    ensures
        stores_tile(
            layout,
            seq![1u8] + stored_pixel(layout, pixel),
            repeated(pixel, width * height),
            width,
            height,
        ),
{
    let part: Seq<u8> = seq![1u8] + stored_pixel(layout, pixel);
    assert forall|before: Seq<u8>, after: Seq<u8>|
        #[trigger] tile(layout, before + part + after, before.len() as int, width, height) == Ok::<
            (Seq<u8>, int),
            DecodeError,
        >((repeated(pixel, width * height), (before.len() + part.len()) as int)) by {
        let data: Seq<u8> = before + part + after;
        let at: int = before.len() as int;
        assert(data =~= (before + seq![1u8]) + stored_pixel(layout, pixel) + after);
        lemma_pixel_round_trip(layout, before + seq![1u8], pixel, after);
        reveal_with_fuel(true_color_pixels, 2);
        let palette: Seq<u8> = true_color_pixels(layout, data, at + 1, 1);
        assert(palette =~= pixel);
        assert(palette_entry(palette, 4, 0) =~= pixel);
        assert(data[at] == 1);
        assert(1 * layout.compressed_bpp == layout.compressed_bpp);
    }
}

/// The bytes that runs are stored with: for each run its pixel, then its length.
pub open spec fn stored_runs(layout: PixelLayout, runs: Seq<(Seq<u8>, nat)>) -> Seq<u8>
    decreases runs.len(),
{
    if runs.len() == 0 {
        Seq::empty()
    } else {
        stored_pixel(layout, runs.first().0) + run_length_bytes(runs.first().1) + stored_runs(
            layout,
            runs.drop_first(),
        )
    }
}

/// The pixels of runs: each run's pixel as often as the run is long.
pub open spec fn run_pixels(runs: Seq<(Seq<u8>, nat)>) -> Seq<u8>
    decreases runs.len(),
{
    if runs.len() == 0 {
        Seq::empty()
    } else {
        repeated(runs.first().0, runs.first().1) + run_pixels(runs.drop_first())
    }
}

/// The runs fill a budget of pixels, and none of them is left over: every
/// run starts with budget left, and the last run uses it up.
pub open spec fn fills(runs: Seq<(Seq<u8>, nat)>, budget: nat) -> bool
    decreases runs.len(),
{
    if runs.len() == 0 {
        budget == 0
    } else {
        budget > 0 && fills(runs.drop_first(), budget_after(budget, runs.first().1 as int))
    }
}

/// Runs that can be stored: pixels that the layout can store, and lengths
/// from one up to what a run length can hold.
pub open spec fn storable_runs(layout: PixelLayout, runs: Seq<(Seq<u8>, nat)>) -> bool {
    forall|i: int|
        0 <= i < runs.len() ==> storable(layout, (#[trigger] runs[i]).0) && 1 <= runs[i].1
            <= u64::MAX
}

/// Runs of true-colour pixels read back as they were written, wherever
/// their bytes stand: the runs that fill a budget decode to their pixels.
pub proof fn lemma_runs_round_trip(
    layout: PixelLayout,
    before: Seq<u8>,
    runs: Seq<(Seq<u8>, nat)>,
    after: Seq<u8>,
    budget: nat,
)
    requires
        stores_four_bytes(layout),
        storable_runs(layout, runs),
        fills(runs, budget),
    ensures
        true_color_runs(
            layout,
            before + stored_runs(layout, runs) + after,
            before.len() as int,
            budget,
        ) == Ok::<(Seq<u8>, int), DecodeError>(
            (run_pixels(runs), (before.len() + stored_runs(layout, runs).len()) as int),
        ),
    decreases runs.len(),
{
    let data: Seq<u8> = before + stored_runs(layout, runs) + after;
    if runs.len() == 0 {
        assert(true_color_runs(layout, data, before.len() as int, budget) == Ok::<
            (Seq<u8>, int),
            DecodeError,
        >((Seq::empty(), before.len() as int)));
    } else {
        let pixel: Seq<u8> = runs.first().0;
        let length: nat = runs.first().1;
        let rest: Seq<(Seq<u8>, nat)> = runs.drop_first();
        let stored: Seq<u8> = stored_pixel(layout, pixel);
        let count: Seq<u8> = run_length_bytes(length);
        let tail: Seq<u8> = stored_runs(layout, rest);
        let at: int = before.len() as int;
        assert(storable(layout, runs[0].0) && 1 <= runs[0].1 <= u64::MAX);
        assert(storable_runs(layout, rest)) by {
            assert forall|i: int| 0 <= i < rest.len() implies storable(
                layout,
                (#[trigger] rest[i]).0,
            ) && 1 <= rest[i].1 <= u64::MAX by {
                assert(rest[i] == runs[i + 1]);
            }
        }
        assert(data =~= before + stored + (count + tail + after));
        lemma_pixel_round_trip(layout, before, pixel, count + tail + after);
        assert(data =~= (before + stored) + count + (tail + after));
        lemma_run_length_round_trip(before + stored, length, tail + after);
        assert(data =~= (before + stored + count) + tail + after);
        lemma_runs_round_trip(
            layout,
            before + stored + count,
            rest,
            after,
            budget_after(budget, length as int),
        );
        assert(stored.len() == layout.compressed_bpp);
        assert(stored_runs(layout, runs).len() == stored.len() + count.len() + tail.len());
        assert(at + layout.compressed_bpp <= data.len());
        assert(run_length(data, at + layout.compressed_bpp) == Ok::<(int, int), DecodeError>(
            (length as int, at + stored.len() + count.len()),
        ));
    }
}

/// A tile of true-colour runs reads back as it was written: a header of
/// 128 and the stored runs decode to the pixels of the runs.
pub proof fn lemma_run_tile_round_trip(
    layout: PixelLayout,
    runs: Seq<(Seq<u8>, nat)>,
    width: nat,
    height: nat,
)
    requires
        stores_four_bytes(layout),
        storable_runs(layout, runs),
        fills(runs, width * height),
    ensures
        stores_tile(
            layout,
            seq![128u8] + stored_runs(layout, runs),
            run_pixels(runs),
            width,
            height,
        ),
{
    let part: Seq<u8> = seq![128u8] + stored_runs(layout, runs);
    assert forall|before: Seq<u8>, after: Seq<u8>|
        #[trigger] tile(layout, before + part + after, before.len() as int, width, height) == Ok::<
            (Seq<u8>, int),
            DecodeError,
        >((run_pixels(runs), (before.len() + part.len()) as int)) by {
        let data: Seq<u8> = before + part + after;
        assert(data =~= (before + seq![128u8]) + stored_runs(layout, runs) + after);
        lemma_runs_round_trip(layout, before + seq![128u8], runs, after, width * height);
        assert(data[before.len() as int] == 128);
        assert(0 * layout.compressed_bpp == 0);
    }
}

proof fn lemma_repeated_len(pixel: Seq<u8>, count: nat)
    ensures
        repeated(pixel, count).len() == count * pixel.len(),
    decreases count,
{
    if count > 0 {
        lemma_repeated_len(pixel, (count - 1) as nat);
        assert(count * pixel.len() == (count - 1) * pixel.len() + pixel.len())
            by (nonlinear_arith);
    } else {
        assert(count * pixel.len() == 0) by (nonlinear_arith)
            requires
                count == 0,
        ;
    }
}

proof fn lemma_palette_entry_len(palette: Seq<u8>, bpp: int, index: int)
    requires
        0 <= bpp,
        0 <= index,
        has_entry(palette, bpp, index),
    ensures
        palette_entry(palette, bpp, index).len() == bpp,
{
    assert(0 <= index * bpp) by (nonlinear_arith)
        requires
            0 <= bpp,
            0 <= index,
    ;
}

proof fn lemma_packed_row_len(
    data: Seq<u8>,
    row_start: int,
    palette: Seq<u8>,
    bpp: int,
    bits: int,
    cols: nat,
)
    requires
        0 <= bpp,
        packed_row(data, row_start, palette, bpp, bits, cols) is Ok,
    ensures
        packed_row(data, row_start, palette, bpp, bits, cols)->Ok_0.len() == cols * bpp,
    decreases cols,
{
    reveal(packed_row);
    if cols > 0 {
        lemma_packed_row_len(data, row_start, palette, bpp, bits, (cols - 1) as nat);
        lemma_palette_entry_len(
            palette,
            bpp,
            packed_index(data, row_start, bits, cols - 1) as int,
        );
        assert(cols * bpp == (cols - 1) * bpp + bpp) by (nonlinear_arith);
    } else {
        assert(cols * bpp == 0) by (nonlinear_arith)
            requires
                cols == 0,
        ;
    }
}

proof fn lemma_packed_rows_len(
    data: Seq<u8>,
    at: int,
    palette: Seq<u8>,
    bpp: int,
    bits: int,
    width: nat,
    rows: nat,
)
    requires
        0 <= bpp,
        packed_rows(data, at, palette, bpp, bits, width, rows) is Ok,
    ensures
        packed_rows(data, at, palette, bpp, bits, width, rows)->Ok_0.0.len() == width * rows * bpp,
    decreases rows,
{
    if rows > 0 {
        lemma_packed_rows_len(data, at, palette, bpp, bits, width, (rows - 1) as nat);
        let before = packed_rows(data, at, palette, bpp, bits, width, (rows - 1) as nat)->Ok_0;
        lemma_packed_row_len(data, before.1, palette, bpp, bits, width);
        assert(width * rows * bpp == width * (rows - 1) * bpp + width * bpp) by (nonlinear_arith);
    } else {
        assert(width * rows * bpp == 0) by (nonlinear_arith)
            requires
                rows == 0,
        ;
    }
}

proof fn lemma_true_color_runs_len(layout: PixelLayout, data: Seq<u8>, at: int, budget: nat)
    requires
        true_color_runs(layout, data, at, budget) is Ok,
    ensures
        true_color_runs(layout, data, at, budget)->Ok_0.0.len() >= budget * layout.bpp,
    decreases budget,
{
    if budget > 0 {
        let run = run_length(data, at + layout.compressed_bpp)->Ok_0;
        lemma_run_length_bounds(data, at + layout.compressed_bpp, 1);
        let left: nat = budget_after(budget, run.0);
        lemma_true_color_runs_len(layout, data, run.1, left);
        lemma_repeated_len(true_color_pixel(layout, data, at), run.0 as nat);
        assert(run.0 * layout.bpp + left * layout.bpp >= budget * layout.bpp) by (nonlinear_arith)
            requires
                run.0 + left >= budget,
                0 <= layout.bpp,
        ;
    } else {
        assert(budget * layout.bpp == 0) by (nonlinear_arith)
            requires
                budget == 0,
        ;
    }
}

proof fn lemma_palette_runs_len(data: Seq<u8>, at: int, palette: Seq<u8>, bpp: int, budget: nat)
    requires
        0 <= bpp,
        palette_runs(data, at, palette, bpp, budget) is Ok,
    ensures
        palette_runs(data, at, palette, bpp, budget)->Ok_0.0.len() >= budget * bpp,
    decreases budget,
{
    if budget > 0 {
        let run = palette_run_length(data, at)->Ok_0;
        lemma_run_length_bounds(data, at + 1, 1);
        let left: nat = budget_after(budget, run.0);
        lemma_palette_runs_len(data, run.1, palette, bpp, left);
        lemma_palette_entry_len(palette, bpp, (data[at] % 128) as int);
        lemma_repeated_len(palette_entry(palette, bpp, (data[at] % 128) as int), run.0 as nat);
        assert(run.0 * bpp + left * bpp >= budget * bpp) by (nonlinear_arith)
            requires
                run.0 + left >= budget,
                0 <= bpp,
        ;
    } else {
        assert(budget * bpp == 0) by (nonlinear_arith)
            requires
                budget == 0,
        ;
    }
}

/// A tile has bytes for each of its pixels: at least `bpp` bytes for each
/// pixel, and exactly that many where the tile is not stored in runs. A
/// tile of runs has more where its last run is longer than what was left
/// to fill.
pub proof fn lemma_tile_byte_count(
    layout: PixelLayout,
    data: Seq<u8>,
    at: int,
    width: nat,
    height: nat,
)
    requires
        layout.well_formed(),
        tile(layout, data, at, width, height) is Ok,
    ensures
        tile(layout, data, at, width, height)->Ok_0.0.len() >= width * height * layout.bpp,
        data[at] < 128 ==> tile(layout, data, at, width, height)->Ok_0.0.len() == width * height
            * layout.bpp,
{
    let palette_size: u8 = data[at] % 128;
    let palette_end: int = at + 1 + palette_size * layout.compressed_bpp;
    let palette: Seq<u8> = true_color_pixels(layout, data, at + 1, palette_size as nat);
    let bpp: int = layout.bpp as int;
    match classify(data[at] >= 128, palette_size) {
        None => {},
        Some(Subencoding::TrueColor) => {
            lemma_true_color_pixels_len(layout, data, palette_end, width * height);
        },
        Some(Subencoding::Solid) => {
            lemma_true_color_pixels_len(layout, data, at + 1, 1);
            assert(palette.len() == bpp) by (nonlinear_arith)
                requires
                    palette.len() == 1 * bpp,
            ;
            assert(has_entry(palette, bpp, 0));
            lemma_palette_entry_len(palette, bpp, 0);
            lemma_repeated_len(palette_entry(palette, bpp, 0), width * height);
        },
        Some(Subencoding::Packed { bits }) => {
            lemma_packed_rows_len(data, palette_end, palette, bpp, bits as int, width, height);
        },
        Some(Subencoding::TrueColorRle) => {
            lemma_true_color_runs_len(layout, data, palette_end, width * height);
        },
        Some(Subencoding::PaletteRle) => {
            lemma_palette_runs_len(data, palette_end, palette, bpp, width * height);
        },
    }
}

proof fn lemma_tiles_byte_count(layout: PixelLayout, rect: Rect, data: Seq<u8>, count: nat)
    requires
        layout.well_formed(),
        tiles(layout, rect, data, count) is Ok,
    ensures
        forall|k: int|
            0 <= k < count ==> (#[trigger] tiles(layout, rect, data, count)->Ok_0.0[k]).data.len()
                >= tile_rect(rect, k).area() * layout.bpp,
    decreases count,
{
    reveal(tiles);
    if count > 0 {
        lemma_tiles_byte_count(layout, rect, data, (count - 1) as nat);
        lemma_tiles_geometry(layout, rect, data, (count - 1) as nat);
        let before = tiles(layout, rect, data, (count - 1) as nat)->Ok_0;
        let region: Rect = tile_rect(rect, count - 1);
        lemma_tile_byte_count(layout, data, before.1, region.width as nat, region.height as nat);
    }
}

/// Every patch of a rectangle has bytes for each pixel of its region: at
/// least `bpp` bytes for each.
pub proof fn lemma_decoded_byte_count(layout: PixelLayout, rect: Rect, data: Seq<u8>)
    requires
        layout.well_formed(),
        decoded(layout, rect, data) is Ok,
    ensures
        forall|k: int|
            0 <= k < tile_count(rect) ==> (#[trigger] decoded(layout, rect, data)->Ok_0[k]).data.len()
                >= tile_rect(rect, k).area() * layout.bpp,
{
    lemma_tiles_byte_count(layout, rect, data, tile_count(rect));
}

/// The patches of a rectangle whose tiles have these bytes, tile by tile.
pub open spec fn tile_patches(rect: Rect, pixels: Seq<Seq<u8>>) -> Seq<PatchModel> {
    Seq::new(
        pixels.len(),
        |k: int| PatchModel { data: pixels[k], rect: tile_rect(rect, k), kind: PatchKind::Raw },
    )
}

proof fn lemma_joined_split(parts: Seq<Seq<u8>>, count: int)
    requires
        0 <= count < parts.len(),
    ensures
        exists|rest: Seq<u8>|
            #[trigger] (joined(parts.take(count)) + parts[count] + rest) == joined(parts),
        joined(parts.take(count + 1)) == joined(parts.take(count)) + parts[count],
        joined(parts.take(parts.len() as int)) == joined(parts),
    decreases parts.len(),
{
    assert(parts.take(parts.len() as int) =~= parts);
    assert(parts.take(count + 1).drop_last() =~= parts.take(count));
    assert(parts.take(count + 1).last() == parts[count]);
    if count == parts.len() - 1 {
        assert(parts.take(count) =~= parts.drop_last());
        assert(joined(parts.take(count)) + parts[count] + Seq::<u8>::empty() =~= joined(parts));
    } else {
        let head: Seq<Seq<u8>> = parts.drop_last();
        lemma_joined_split(head, count);
        assert(head.take(count) =~= parts.take(count));
        let rest: Seq<u8> = choose|rest: Seq<u8>|
            #[trigger] (joined(head.take(count)) + head[count] + rest) == joined(head);
        assert(joined(parts.take(count)) + parts[count] + (rest + parts.last()) =~= joined(
            parts,
        ));
    }
}

proof fn lemma_rectangle_tiles(
    layout: PixelLayout,
    rect: Rect,
    parts: Seq<Seq<u8>>,
    pixels: Seq<Seq<u8>>,
    count: nat,
)
    requires
        parts.len() == tile_count(rect),
        pixels.len() == tile_count(rect),
        count <= tile_count(rect),
        forall|k: int|
            0 <= k < tile_count(rect) ==> stores_tile(
                layout,
                #[trigger] parts[k],
                pixels[k],
                tile_rect(rect, k).width as nat,
                tile_rect(rect, k).height as nat,
            ),
    ensures
        tiles(layout, rect, joined(parts), count) == Ok::<(Seq<PatchModel>, int), DecodeError>(
            (
                tile_patches(rect, pixels.take(count as int)),
                joined(parts.take(count as int)).len() as int,
            ),
        ),
    decreases count,
{
    reveal(tiles);
    if count == 0 {
        assert(tile_patches(rect, pixels.take(0)) =~= Seq::<PatchModel>::empty());
        assert(parts.take(0) =~= Seq::<Seq<u8>>::empty());
    } else {
        let k: int = count - 1;
        lemma_rectangle_tiles(layout, rect, parts, pixels, k as nat);
        lemma_joined_split(parts, k);
        let before: Seq<u8> = joined(parts.take(k));
        let rest: Seq<u8> = choose|rest: Seq<u8>|
            #[trigger] (joined(parts.take(k)) + parts[k] + rest) == joined(parts);
        assert(stores_tile(
            layout,
            parts[k],
            pixels[k],
            tile_rect(rect, k).width as nat,
            tile_rect(rect, k).height as nat,
        ));
        assert(tile(
            layout,
            before + parts[k] + rest,
            before.len() as int,
            tile_rect(rect, k).width as nat,
            tile_rect(rect, k).height as nat,
        ) == Ok::<(Seq<u8>, int), DecodeError>((pixels[k], (before.len() + parts[k].len()) as int)));
        assert(tile_patches(rect, pixels.take(count as int)) =~= tile_patches(
            rect,
            pixels.take(k),
        ).push(PatchModel { data: pixels[k], rect: tile_rect(rect, k), kind: PatchKind::Raw }));
    }
}

/// A rectangle reads back as it was written: where every tile of the grid
/// is stored by its part, the parts, one after the other, decode to the
/// tiles' bytes, one patch for each tile; no byte is left over.
pub proof fn lemma_rectangle_round_trip(
    layout: PixelLayout,
    rect: Rect,
    parts: Seq<Seq<u8>>,
    pixels: Seq<Seq<u8>>,
)
    requires
        parts.len() == tile_count(rect),
        pixels.len() == tile_count(rect),
        forall|k: int|
            0 <= k < tile_count(rect) ==> stores_tile(
                layout,
                #[trigger] parts[k],
                pixels[k],
                tile_rect(rect, k).width as nat,
                tile_rect(rect, k).height as nat,
            ),
    ensures
        decoded(layout, rect, joined(parts)) == Ok::<Seq<PatchModel>, DecodeError>(
            tile_patches(rect, pixels),
        ),
{
    lemma_rectangle_tiles(layout, rect, parts, pixels, tile_count(rect));
    assert(pixels.take(tile_count(rect) as int) =~= pixels);
    assert(parts.take(tile_count(rect) as int) =~= parts);
}

/// The bytes that a run of a palette entry is stored with: the number of
/// the entry alone for a single pixel; else the number with the top bit
/// set, and the length of the run behind it.
pub open spec fn stored_palette_run(index: nat, length: nat) -> Seq<u8> {
    if length == 1 {
        seq![index as u8]
    } else {
        seq![(128 + index) as u8] + run_length_bytes(length)
    }
}

/// The bytes that runs of palette entries are stored with. A run is the
/// number of its entry and its length.
pub open spec fn stored_palette_runs(runs: Seq<(nat, nat)>) -> Seq<u8>
    decreases runs.len(),
{
    if runs.len() == 0 {
        Seq::empty()
    } else {
        stored_palette_run(runs.first().0, runs.first().1) + stored_palette_runs(
            runs.drop_first(),
        )
    }
}

/// The pixels of runs of palette entries.
pub open spec fn palette_run_pixels(palette: Seq<Seq<u8>>, runs: Seq<(nat, nat)>) -> Seq<u8>
    decreases runs.len(),
{
    if runs.len() == 0 {
        Seq::empty()
    } else {
        repeated(palette[runs.first().0 as int], runs.first().1) + palette_run_pixels(
            palette,
            runs.drop_first(),
        )
    }
}

/// The runs fill a budget of pixels, and none of them is left over.
pub open spec fn fills_indexed(runs: Seq<(nat, nat)>, budget: nat) -> bool
    decreases runs.len(),
{
    if runs.len() == 0 {
        budget == 0
    } else {
        budget > 0 && fills_indexed(runs.drop_first(), budget_after(budget, runs.first().1 as int))
    }
}

/// Runs that can be stored over a palette of `entries` entries.
pub open spec fn storable_indexed_runs(entries: nat, runs: Seq<(nat, nat)>) -> bool {
    forall|i: int|
        0 <= i < runs.len() ==> (#[trigger] runs[i]).0 < entries && 1 <= runs[i].1 <= u64::MAX
}

/// All pixels have four bytes.
pub open spec fn four_bytes_each(pixels: Seq<Seq<u8>>) -> bool {
    forall|i: int| 0 <= i < pixels.len() ==> (#[trigger] pixels[i]).len() == 4
}

proof fn lemma_joined_entry(pixels: Seq<Seq<u8>>, index: int)
    requires
        four_bytes_each(pixels),
        0 <= index < pixels.len(),
    ensures
        joined(pixels).len() == 4 * pixels.len(),
        has_entry(joined(pixels), 4, index),
        palette_entry(joined(pixels), 4, index) == pixels[index],
    decreases pixels.len(),
{
    let head: Seq<Seq<u8>> = pixels.drop_last();
    assert(four_bytes_each(head)) by {
        assert forall|i: int| 0 <= i < head.len() implies (#[trigger] head[i]).len() == 4 by {
            assert(head[i] == pixels[i]);
        }
    }
    assert(pixels[pixels.len() - 1].len() == 4);
    if head.len() > 0 {
        lemma_joined_entry(head, if index < head.len() {
            index
        } else {
            0
        });
    }
    assert(joined(head).len() == 4 * head.len());
    if index < head.len() {
        assert(palette_entry(joined(pixels), 4, index) =~= palette_entry(joined(head), 4, index));
    } else {
        assert(palette_entry(joined(pixels), 4, index) =~= pixels[index]);
    }
}

/// Runs of palette entries read back as they were written, wherever their
/// bytes stand.
pub proof fn lemma_palette_runs_round_trip(
    before: Seq<u8>,
    palette: Seq<Seq<u8>>,
    runs: Seq<(nat, nat)>,
    after: Seq<u8>,
    budget: nat,
)
    requires
        four_bytes_each(palette),
        palette.len() <= 127,
        storable_indexed_runs(palette.len(), runs),
        fills_indexed(runs, budget),
    ensures
        palette_runs(
            before + stored_palette_runs(runs) + after,
            before.len() as int,
            joined(palette),
            4,
            budget,
        ) == Ok::<(Seq<u8>, int), DecodeError>(
            (
                palette_run_pixels(palette, runs),
                (before.len() + stored_palette_runs(runs).len()) as int,
            ),
        ),
    decreases runs.len(),
{
    let data: Seq<u8> = before + stored_palette_runs(runs) + after;
    let at: int = before.len() as int;
    if runs.len() > 0 {
        let index: nat = runs.first().0;
        let length: nat = runs.first().1;
        let rest: Seq<(nat, nat)> = runs.drop_first();
        let head: Seq<u8> = stored_palette_run(index, length);
        let tail: Seq<u8> = stored_palette_runs(rest);
        assert(runs[0].0 < palette.len() && 1 <= runs[0].1 <= u64::MAX);
        assert(storable_indexed_runs(palette.len(), rest)) by {
            assert forall|i: int| 0 <= i < rest.len() implies (#[trigger] rest[i]).0
                < palette.len() && 1 <= rest[i].1 <= u64::MAX by {
                assert(rest[i] == runs[i + 1]);
            }
        }
        lemma_joined_entry(palette, index as int);
        assert(data =~= (before + head) + tail + after);
        lemma_palette_runs_round_trip(
            before + head,
            palette,
            rest,
            after,
            budget_after(budget, length as int),
        );
        assert(data[at] == head[0]);
        if length == 1 {
            assert(head.len() == 1);
            assert(data[at] == index as u8);
        } else {
            let count: Seq<u8> = run_length_bytes(length);
            assert(data[at] == (128 + index) as u8);
            assert(data =~= (before + seq![(128 + index) as u8]) + count + (tail + after));
            lemma_run_length_round_trip(before + seq![(128 + index) as u8], length, tail + after);
            assert(head.len() == 1 + count.len());
        }
        assert((data[at] % 128) as int == index);
        assert(palette_run_length(data, at) == Ok::<(int, int), DecodeError>(
            (length as int, at + head.len()),
        ));
        assert(stored_palette_runs(runs).len() == head.len() + tail.len());
    }
}

/// A tile of palette runs reads back as it was written: a header of 128
/// and the size of the palette, the stored palette and the stored runs
/// decode to the pixels of the runs.
pub proof fn lemma_palette_run_tile_round_trip(
    layout: PixelLayout,
    palette: Seq<Seq<u8>>,
    runs: Seq<(nat, nat)>,
    width: nat,
    height: nat,
)
    requires
        stores_four_bytes(layout),
        2 <= palette.len() <= 127,
        forall|i: int| 0 <= i < palette.len() ==> storable(layout, #[trigger] palette[i]),
        storable_indexed_runs(palette.len(), runs),
        fills_indexed(runs, width * height),
    ensures
        stores_tile(
            layout,
            seq![(128 + palette.len()) as u8] + stored_pixels(layout, palette)
                + stored_palette_runs(runs),
            palette_run_pixels(palette, runs),
            width,
            height,
        ),
{
    let header: Seq<u8> = seq![(128 + palette.len()) as u8];
    let entries: Seq<u8> = stored_pixels(layout, palette);
    let stored: Seq<u8> = stored_palette_runs(runs);
    let part: Seq<u8> = header + entries + stored;
    lemma_stored_pixels_len(layout, palette);
    assert(four_bytes_each(palette));
    assert forall|before: Seq<u8>, after: Seq<u8>|
        #[trigger] tile(layout, before + part + after, before.len() as int, width, height) == Ok::<
            (Seq<u8>, int),
            DecodeError,
        >((palette_run_pixels(palette, runs), (before.len() + part.len()) as int)) by {
        let data: Seq<u8> = before + part + after;
        let at: int = before.len() as int;
        assert(data =~= (before + header) + entries + (stored + after));
        lemma_pixels_round_trip(layout, before + header, palette, stored + after);
        assert(data =~= (before + header + entries) + stored + after);
        lemma_palette_runs_round_trip(before + header + entries, palette, runs, after, width * height);
        assert(data[at] == (128 + palette.len()) as u8);
        assert(data[at] >= 128 && (data[at] % 128) as int == palette.len());
    }
}

/// The palette index in place `at` of a row, or 0 behind the end of the row.
pub open spec fn slot(indices: Seq<u8>, at: int) -> u8 {
    if 0 <= at < indices.len() {
        indices[at]
    } else {
        0u8
    }
}

/// Two indices of four bits in one byte, the first in the high bits.
pub open spec fn pack2(a: u8, b: u8) -> u8 {
    (a << 4u8) | b
}

/// Four indices of two bits in one byte, the first in the highest bits.
pub open spec fn pack4(a: u8, b: u8, c: u8, d: u8) -> u8 {
    (a << 6u8) | (b << 4u8) | (c << 2u8) | d
}

/// Eight indices of one bit in one byte, the first in the highest bit.
pub open spec fn pack8(a: u8, b: u8, c: u8, d: u8, e: u8, f: u8, g: u8, h: u8) -> u8 {
    (a << 7u8) | (b << 6u8) | (c << 5u8) | (d << 4u8) | (e << 3u8) | (f << 2u8) | (g << 1u8) | h
}

/// Byte number `j` of a row of indices packed with `bits` bits each.
pub open spec fn packed_byte(indices: Seq<u8>, bits: int, j: int) -> u8 {
    if bits == 4 {
        pack2(slot(indices, 2 * j), slot(indices, 2 * j + 1))
    } else if bits == 2 {
        pack4(
            slot(indices, 4 * j),
            slot(indices, 4 * j + 1),
            slot(indices, 4 * j + 2),
            slot(indices, 4 * j + 3),
        )
    } else {
        pack8(
            slot(indices, 8 * j),
            slot(indices, 8 * j + 1),
            slot(indices, 8 * j + 2),
            slot(indices, 8 * j + 3),
            slot(indices, 8 * j + 4),
            slot(indices, 8 * j + 5),
            slot(indices, 8 * j + 6),
            slot(indices, 8 * j + 7),
        )
    }
}

/// The bytes of a row of indices packed with `bits` bits each: as many
/// bytes as the row takes, the last filled up with zero bits.
pub open spec fn packed_row_bytes(indices: Seq<u8>, bits: int) -> Seq<u8> {
    Seq::new(
        row_bytes(indices.len() as int, bits) as nat,
        |j: int| packed_byte(indices, bits, j),
    )
}

proof fn lemma_pack2_fields(a: u8, b: u8)
    requires
        a < 16,
        b < 16,
    ensures
        bit_field(pack2(a, b), 0, 4) == a,
        bit_field(pack2(a, b), 4, 4) == b,
{
    let x: u8 = pack2(a, b);
    assert(1u16 << 4u16 == 16u16) by (bit_vector);
    assert(((x as u16) >> 4u16) & 15u16 == a as u16 && ((x as u16) >> 0u16) & 15u16 == b as u16)
        by (bit_vector)
        requires
            x == (a << 4u8) | b,
            a < 16,
            b < 16,
    ;
}

proof fn lemma_pack4_fields(a: u8, b: u8, c: u8, d: u8)
    requires
        a < 4,
        b < 4,
        c < 4,
        d < 4,
    ensures
        bit_field(pack4(a, b, c, d), 0, 2) == a,
        bit_field(pack4(a, b, c, d), 2, 2) == b,
        bit_field(pack4(a, b, c, d), 4, 2) == c,
        bit_field(pack4(a, b, c, d), 6, 2) == d,
{
    let x: u8 = pack4(a, b, c, d);
    assert(1u16 << 2u16 == 4u16) by (bit_vector);
    assert(((x as u16) >> 6u16) & 3u16 == a as u16 && ((x as u16) >> 4u16) & 3u16 == b as u16 && ((
    x as u16) >> 2u16) & 3u16 == c as u16 && ((x as u16) >> 0u16) & 3u16 == d as u16)
        by (bit_vector)
        requires
            x == (a << 6u8) | (b << 4u8) | (c << 2u8) | d,
            a < 4,
            b < 4,
            c < 4,
            d < 4,
    ;
}

proof fn lemma_pack8_fields(a: u8, b: u8, c: u8, d: u8, e: u8, f: u8, g: u8, h: u8)
    requires
        a < 2,
        b < 2,
        c < 2,
        d < 2,
        e < 2,
        f < 2,
        g < 2,
        h < 2,
    ensures
        bit_field(pack8(a, b, c, d, e, f, g, h), 0, 1) == a,
        bit_field(pack8(a, b, c, d, e, f, g, h), 1, 1) == b,
        bit_field(pack8(a, b, c, d, e, f, g, h), 2, 1) == c,
        bit_field(pack8(a, b, c, d, e, f, g, h), 3, 1) == d,
        bit_field(pack8(a, b, c, d, e, f, g, h), 4, 1) == e,
        bit_field(pack8(a, b, c, d, e, f, g, h), 5, 1) == f,
        bit_field(pack8(a, b, c, d, e, f, g, h), 6, 1) == g,
        bit_field(pack8(a, b, c, d, e, f, g, h), 7, 1) == h,
{
    let x: u8 = pack8(a, b, c, d, e, f, g, h);
    assert(1u16 << 1u16 == 2u16) by (bit_vector);
    assert(((x as u16) >> 7u16) & 1u16 == a as u16 && ((x as u16) >> 6u16) & 1u16 == b as u16 && ((
    x as u16) >> 5u16) & 1u16 == c as u16 && ((x as u16) >> 4u16) & 1u16 == d as u16 && ((
    x as u16) >> 3u16) & 1u16 == e as u16 && ((x as u16) >> 2u16) & 1u16 == f as u16 && ((
    x as u16) >> 1u16) & 1u16 == g as u16 && ((x as u16) >> 0u16) & 1u16 == h as u16)
        by (bit_vector)
        requires
            x == (a << 7u8) | (b << 6u8) | (c << 5u8) | (d << 4u8) | (e << 3u8) | (f << 2u8) | (g
                << 1u8) | h,
            a < 2,
            b < 2,
            c < 2,
            d < 2,
            e < 2,
            f < 2,
            g < 2,
            h < 2,
    ;
}

/// The number of bits that a packed index of a palette of `entries`
/// entries takes.
pub open spec fn index_bits(entries: nat) -> int {
    if entries <= 2 {
        1
    } else if entries <= 4 {
        2
    } else {
        4
    }
}

/// A row of `width` indices into a palette of `entries` entries.
pub open spec fn indexes(row: Seq<u8>, width: nat, entries: nat) -> bool {
    row.len() == width && forall|c: int| 0 <= c < row.len() ==> #[trigger] row[c] < entries
}

/// The pixels of a row of palette indices.
pub open spec fn indexed_pixels(palette: Seq<Seq<u8>>, indices: Seq<u8>) -> Seq<u8>
    decreases indices.len(),
{
    if indices.len() == 0 {
        Seq::empty()
    } else {
        indexed_pixels(palette, indices.drop_last()) + palette[indices.last() as int]
    }
}

/// The bytes that rows of palette indices are stored with, row by row.
pub open spec fn stored_rows(rows: Seq<Seq<u8>>, bits: int) -> Seq<Seq<u8>> {
    Seq::new(rows.len(), |r: int| packed_row_bytes(rows[r], bits))
}

/// The pixels of rows of palette indices, row by row.
pub open spec fn rows_pixels(palette: Seq<Seq<u8>>, rows: Seq<Seq<u8>>) -> Seq<Seq<u8>> {
    Seq::new(rows.len(), |r: int| indexed_pixels(palette, rows[r]))
}

proof fn lemma_packed_index(
    data: Seq<u8>,
    row_start: int,
    indices: Seq<u8>,
    entries: nat,
    col: int,
)
    requires
        2 <= entries <= 16,
        indexes(indices, indices.len(), entries),
        0 <= col < indices.len(),
        0 <= row_start,
        row_start + row_bytes(indices.len() as int, index_bits(entries)) <= data.len(),
        forall|j: int|
            0 <= j < row_bytes(indices.len() as int, index_bits(entries)) ==> #[trigger] data[row_start
                + j] == packed_byte(indices, index_bits(entries), j),
    ensures
        row_start + (col * index_bits(entries)) / 8 < data.len(),
        packed_index(data, row_start, index_bits(entries), col) == indices[col],
{
    let bits: int = index_bits(entries);
    let j: int = (col * bits) / 8;
    assert forall|c: int| 0 <= c < indices.len() implies slot(indices, c) < entries by {
        assert(indices[c] < entries);
    }
    if bits == 4 {
        assert(0 <= j < row_bytes(indices.len() as int, bits));
        assert(data[row_start + j] == packed_byte(indices, bits, j));
        lemma_pack2_fields(slot(indices, 2 * j), slot(indices, 2 * j + 1));
        if col % 2 == 0 {
            assert(col == 2 * j && (col * bits) % 8 == 0);
        } else {
            assert(col == 2 * j + 1 && (col * bits) % 8 == 4);
        }
    } else if bits == 2 {
        assert(0 <= j < row_bytes(indices.len() as int, bits));
        assert(data[row_start + j] == packed_byte(indices, bits, j));
        lemma_pack4_fields(
            slot(indices, 4 * j),
            slot(indices, 4 * j + 1),
            slot(indices, 4 * j + 2),
            slot(indices, 4 * j + 3),
        );
        if col % 4 == 0 {
            assert(col == 4 * j && (col * bits) % 8 == 0);
        } else if col % 4 == 1 {
            assert(col == 4 * j + 1 && (col * bits) % 8 == 2);
        } else if col % 4 == 2 {
            assert(col == 4 * j + 2 && (col * bits) % 8 == 4);
        } else {
            assert(col == 4 * j + 3 && (col * bits) % 8 == 6);
        }
    } else {
        assert(0 <= j < row_bytes(indices.len() as int, bits));
        assert(data[row_start + j] == packed_byte(indices, bits, j));
        lemma_pack8_fields(
            slot(indices, 8 * j),
            slot(indices, 8 * j + 1),
            slot(indices, 8 * j + 2),
            slot(indices, 8 * j + 3),
            slot(indices, 8 * j + 4),
            slot(indices, 8 * j + 5),
            slot(indices, 8 * j + 6),
            slot(indices, 8 * j + 7),
        );
        assert(col == 8 * j + col % 8 && (col * bits) % 8 == col % 8);
        if col % 8 == 0 {
            assert(col == 8 * j);
        } else if col % 8 == 1 {
            assert(col == 8 * j + 1);
        } else if col % 8 == 2 {
            assert(col == 8 * j + 2);
        } else if col % 8 == 3 {
            assert(col == 8 * j + 3);
        } else if col % 8 == 4 {
            assert(col == 8 * j + 4);
        } else if col % 8 == 5 {
            assert(col == 8 * j + 5);
        } else if col % 8 == 6 {
            assert(col == 8 * j + 6);
        } else {
            assert(col == 8 * j + 7);
        }
    }
}

proof fn lemma_packed_row_round_trip(
    data: Seq<u8>,
    row_start: int,
    palette: Seq<Seq<u8>>,
    indices: Seq<u8>,
    cols: nat,
)
    requires
        four_bytes_each(palette),
        2 <= palette.len() <= 16,
        indexes(indices, indices.len(), palette.len()),
        cols <= indices.len(),
        0 <= row_start,
        row_start + row_bytes(indices.len() as int, index_bits(palette.len())) <= data.len(),
        forall|j: int|
            0 <= j < row_bytes(indices.len() as int, index_bits(palette.len())) ==> #[trigger] data[row_start
                + j] == packed_byte(indices, index_bits(palette.len()), j),
    ensures
        packed_row(data, row_start, joined(palette), 4, index_bits(palette.len()), cols) == Ok::<
            Seq<u8>,
            DecodeError,
        >(indexed_pixels(palette, indices.take(cols as int))),
    decreases cols,
{
    reveal(packed_row);
    if cols > 0 {
        let col: int = cols - 1;
        lemma_packed_row_round_trip(data, row_start, palette, indices, col as nat);
        lemma_packed_index(data, row_start, indices, palette.len(), col);
        assert(indices[col] < palette.len());
        lemma_joined_entry(palette, indices[col] as int);
        assert(indices.take(cols as int).drop_last() =~= indices.take(col));
        assert(indices.take(cols as int).last() == indices[col]);
    } else {
        assert(indices.take(0).len() == 0);
    }
}

proof fn lemma_packed_rows_round_trip(
    before: Seq<u8>,
    palette: Seq<Seq<u8>>,
    rows: Seq<Seq<u8>>,
    width: nat,
    after: Seq<u8>,
    count: nat,
)
    requires
        four_bytes_each(palette),
        2 <= palette.len() <= 16,
        count <= rows.len(),
        forall|r: int| 0 <= r < rows.len() ==> indexes(#[trigger] rows[r], width, palette.len()),
    ensures
        packed_rows(
            before + joined(stored_rows(rows, index_bits(palette.len()))) + after,
            before.len() as int,
            joined(palette),
            4,
            index_bits(palette.len()),
            width,
            count,
        ) == Ok::<(Seq<u8>, int), DecodeError>(
            (
                joined(rows_pixels(palette, rows).take(count as int)),
                (before.len() + joined(
                    stored_rows(rows, index_bits(palette.len())).take(count as int),
                ).len()) as int,
            ),
        ),
    decreases count,
{
    let bits: int = index_bits(palette.len());
    let parts: Seq<Seq<u8>> = stored_rows(rows, bits);
    let pixels: Seq<Seq<u8>> = rows_pixels(palette, rows);
    let data: Seq<u8> = before + joined(parts) + after;
    if count == 0 {
        assert(parts.take(0) =~= Seq::<Seq<u8>>::empty());
        assert(pixels.take(0) =~= Seq::<Seq<u8>>::empty());
    } else {
        let k: int = count - 1;
        lemma_packed_rows_round_trip(before, palette, rows, width, after, k as nat);
        lemma_joined_split(parts, k);
        lemma_joined_split(pixels, k);
        let rest: Seq<u8> = choose|rest: Seq<u8>|
            #[trigger] (joined(parts.take(k)) + parts[k] + rest) == joined(parts);
        let row_start: int = (before.len() + joined(parts.take(k)).len()) as int;
        assert(indexes(rows[k], width, palette.len()));
        assert(parts[k].len() == row_bytes(width as int, bits));
        assert(data =~= (before + joined(parts.take(k))) + parts[k] + (rest + after));
        assert forall|j: int| 0 <= j < row_bytes(rows[k].len() as int, bits) implies #[trigger] data[row_start
            + j] == packed_byte(rows[k], bits, j) by {
            assert(data[row_start + j] == parts[k][j]);
        }
        lemma_packed_row_round_trip(data, row_start, palette, rows[k], width);
        assert(rows[k].take(width as int) =~= rows[k]);
    }
}

/// A tile of packed palette indices reads back as it was written: a
/// header of the size of the palette, the stored palette and the packed
/// rows decode to the pixels that the indices stand for.
pub proof fn lemma_packed_tile_round_trip(
    layout: PixelLayout,
    palette: Seq<Seq<u8>>,
    rows: Seq<Seq<u8>>,
    width: nat,
    height: nat,
)
    requires
        stores_four_bytes(layout),
        2 <= palette.len() <= 16,
        forall|i: int| 0 <= i < palette.len() ==> storable(layout, #[trigger] palette[i]),
        rows.len() == height,
        forall|r: int| 0 <= r < rows.len() ==> indexes(#[trigger] rows[r], width, palette.len()),
    ensures
        stores_tile(
            layout,
            seq![palette.len() as u8] + stored_pixels(layout, palette) + joined(
                stored_rows(rows, index_bits(palette.len())),
            ),
            joined(rows_pixels(palette, rows)),
            width,
            height,
        ),
{
    let bits: int = index_bits(palette.len());
    let header: Seq<u8> = seq![palette.len() as u8];
    let entries: Seq<u8> = stored_pixels(layout, palette);
    let packed: Seq<u8> = joined(stored_rows(rows, bits));
    let part: Seq<u8> = header + entries + packed;
    lemma_stored_pixels_len(layout, palette);
    assert(four_bytes_each(palette));
    assert forall|before: Seq<u8>, after: Seq<u8>|
        #[trigger] tile(layout, before + part + after, before.len() as int, width, height) == Ok::<
            (Seq<u8>, int),
            DecodeError,
        >((joined(rows_pixels(palette, rows)), (before.len() + part.len()) as int)) by {
        let data: Seq<u8> = before + part + after;
        let at: int = before.len() as int;
        assert(data =~= (before + header) + entries + (packed + after));
        lemma_pixels_round_trip(layout, before + header, palette, packed + after);
        assert(data =~= (before + header + entries) + packed + after);
        lemma_packed_rows_round_trip(before + header + entries, palette, rows, width, after, height);
        assert(stored_rows(rows, bits).take(height as int) =~= stored_rows(rows, bits));
        assert(rows_pixels(palette, rows).take(height as int) =~= rows_pixels(palette, rows));
        assert(data[at] == palette.len() as u8);
        assert(data[at] < 128 && (data[at] % 128) as int == palette.len());
        assert(classify(false, data[at] % 128) == Some(Subencoding::Packed { bits: bits as u8 }));
    }
}

} // verus!
