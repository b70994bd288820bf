//! The icon normalizer: native bitmaps of several depths become 8-bit RGBA.

use vstd::prelude::*;

verus! {

/// The side, in pixels, that an application icon is asked to be rasterized at
/// before it is normalized.
pub const ICON_SIDE: u32 = 32;

/// A rasterized native bitmap.
#[derive(Debug, PartialEq, Eq)]
pub struct Bitmap {
    pub width: u32,
    pub height: u32,
    pub bytes_per_row: usize,
    pub bits_per_pixel: usize,
    /// The pixel data, or `None` where the platform failed to rasterize.
    pub data: Option<Vec<u8>>,
}

/// An icon in 8-bit RGBA, four bytes per pixel, row by row.
#[derive(Debug, PartialEq, Eq)]
pub struct IconData {
    pub width: u32,
    pub height: u32,
    pub rgba: Vec<u8>,
}

/// What an `IconData` is.
pub struct IconView {
    pub width: u32,
    pub height: u32,
    pub rgba: Seq<u8>,
}

impl View for IconData {
    type V = IconView;

    open spec fn view(&self) -> IconView {
        IconView { width: self.width, height: self.height, rgba: self.rgba@ }
    }
}

/// The 8-bit value of a channel given as a 16-bit floating-point number: the
/// number is clamped to the range from 0 to 1, scaled by 255 and cut to a
/// whole number. A number that is not a number gives 0.
///
/// A positive number below 1 with exponent field `e` of at least 1 and
/// mantissa field `m` is `(1024 + m) / 2^(25 - e)`, so its channel value is
/// `(1024 + m) * 255` shifted right by `25 - e`. A subnormal number, with
/// exponent field 0, is too small to reach 1 when scaled and gives 0.
pub open spec fn unit_byte(bits: u16) -> u8 {
    let exponent = (bits >> 10) & 0x1f;
    let mantissa = bits & 0x3ff;
    if bits >= 0x8000 || (exponent == 31 && mantissa != 0) {
        0
    } else if exponent >= 15 {
        255
    } else if exponent == 0 {
        0
    } else {
        ((((1024 + mantissa) * 255) as u32) >> ((25 - exponent) as u32)) as u8
    }
}

/// Converts one 16-bit floating-point channel to its 8-bit value.
pub fn half_to_byte(bits: u16) -> (out: u8)
    ensures
        out == unit_byte(bits),
{
    let exponent: u16 = (bits >> 10) & 0x1f;
    let mantissa: u16 = bits & 0x3ff;
    assert((bits >> 10) & 0x1f <= 31) by (bit_vector);
    assert(bits & 0x3ff <= 1023) by (bit_vector);
    if bits >= 0x8000 || (exponent == 31 && mantissa != 0) {
        0
    } else if exponent >= 15 {
        255
    } else if exponent == 0 {
        0
    } else {
        let scaled: u32 = (1024 + mantissa as u32) * 255;
        let shift: u32 = 25 - exponent as u32;
        assert(scaled >> shift < 256) by (bit_vector)
            requires
                scaled < 2048 * 255,
                11 <= shift <= 24,
        ;
        (scaled >> shift) as u8
    }
}

/// The number of pixels of a bitmap.
pub open spec fn pixel_count(bitmap: Bitmap) -> int {
    bitmap.width * bitmap.height
}

/// Byte `i` of the RGBA form of packed RGB triples: full opacity behind every
/// triple.
pub open spec fn rgb_byte(data: Seq<u8>, i: int) -> u8 {
    if i % 4 == 3 {
        255
    } else {
        data[(i / 4) * 3 + i % 4]
    }
}

/// The RGBA form of `pixels` packed RGB triples.
pub open spec fn rgb_expanded(data: Seq<u8>, pixels: int) -> Seq<u8> {
    Seq::new((4 * pixels) as nat, |i: int| rgb_byte(data, i))
}

/// Byte `i` of the RGBA form of a bitmap of 16-bit floating-point channels,
/// whose rows start `bytes_per_row` bytes apart and whose channels are stored
/// least significant byte first.
pub open spec fn half_byte(data: Seq<u8>, width: int, bytes_per_row: int, i: int) -> u8 {
    let pixel = i / 4;
    let at = (pixel / width) * bytes_per_row + (pixel % width) * 8 + (i % 4) * 2;
    unit_byte((data[at] + 256 * data[at + 1]) as u16)
}

/// The RGBA form of a bitmap of 16-bit floating-point channels.
pub open spec fn half_converted(data: Seq<u8>, width: int, height: int, bytes_per_row: int) -> Seq<
    u8,
> {
    Seq::new((4 * width * height) as nat, |i: int| half_byte(data, width, bytes_per_row, i))
}

/// Whether every pixel of a bitmap of 16-bit floating-point channels lies
/// within its data.
pub open spec fn rows_fit(bitmap: Bitmap, len: int) -> bool {
    bitmap.width == 0 || bitmap.height == 0 || (bitmap.height - 1) * bitmap.bytes_per_row
        + bitmap.width * 8 <= len
}

/// The icon that a bitmap normalizes to. There is none where the platform
/// failed to rasterize, where the depth is not 24, 32 or 64 bits per pixel,
/// where the data does not hold the pixels that the dimensions call for, or
/// where the RGBA form would not fit the address space.
pub open spec fn normalized(bitmap: Bitmap) -> Option<IconView> {
    match bitmap.data {
        None => None,
        Some(data) => {
            let pixels = pixel_count(bitmap);
            if 4 * pixels > usize::MAX {
                None
            } else if bitmap.bits_per_pixel == 24 && data@.len() == 3 * pixels {
                Some(
                    IconView {
                        width: bitmap.width,
                        height: bitmap.height,
                        rgba: rgb_expanded(data@, pixels),
                    },
                )
            } else if bitmap.bits_per_pixel == 32 && data@.len() == 4 * pixels {
                Some(IconView { width: bitmap.width, height: bitmap.height, rgba: data@ })
            } else if bitmap.bits_per_pixel == 64 && rows_fit(bitmap, data@.len() as int) {
                Some(
                    IconView {
                        width: bitmap.width,
                        height: bitmap.height,
                        rgba: half_converted(
                            data@,
                            bitmap.width as int,
                            bitmap.height as int,
                            bitmap.bytes_per_row as int,
                        ),
                    },
                )
            } else {
                None
            }
        },
    }
}

/// A row-major pixel position determines its row and column.
proof fn lemma_row_and_column(pixel: int, width: int, row: int, column: int)
    requires
        0 <= column < width,
        pixel == row * width + column,
    ensures
        pixel / width == row,
        pixel % width == column,
{
    vstd::arithmetic::div_mod::lemma_fundamental_div_mod_converse(pixel, width, row, column);
}

/// The pixel at `row` and `column` ends within the data of a bitmap whose rows
/// fit.
proof fn lemma_pixel_within(
    row: int,
    column: int,
    width: int,
    height: int,
    bytes_per_row: int,
    len: int,
)
    requires
        0 <= row < height,
        0 <= column < width,
        0 <= bytes_per_row,
        (height - 1) * bytes_per_row + width * 8 <= len,
    ensures
        0 <= row * bytes_per_row,
        row * bytes_per_row + column * 8 + 8 <= len,
{
    assert(0 <= row * bytes_per_row <= (height - 1) * bytes_per_row) by (nonlinear_arith)
        requires
            0 <= row <= height - 1,
            0 <= bytes_per_row,
    ;
}

/// Expands packed RGB triples to RGBA with full opacity.
fn expand_rgb(data: &Vec<u8>, pixels: usize) -> (out: Vec<u8>)
    requires
        data@.len() == 3 * pixels,
        4 * pixels <= usize::MAX,
    ensures
        out@ == rgb_expanded(data@, pixels as int),
{
    let mut out: Vec<u8> = Vec::new();
    let mut p: usize = 0;
    while p < pixels
        invariant
            p <= pixels,
            data@.len() == 3 * pixels,
            4 * pixels <= usize::MAX,
            out@.len() == 4 * p,
            forall|i: int| 0 <= i < 4 * p ==> out@[i] == rgb_byte(data@, i),
        decreases pixels - p,
    {
        out.push(data[3 * p]);
        out.push(data[3 * p + 1]);
        out.push(data[3 * p + 2]);
        out.push(255);
        p = p + 1;
    }
    assert(out@ =~= rgb_expanded(data@, pixels as int));
    out
}

/// Converts a bitmap of 16-bit floating-point channels to RGBA.
fn convert_half(data: &Vec<u8>, width: usize, height: usize, bytes_per_row: usize) -> (out: Vec<u8>)
    requires
        0 < width,
        0 < height,
        (height - 1) * bytes_per_row + width * 8 <= data@.len(),
        4 * width * height <= usize::MAX,
    ensures
        out@ == half_converted(data@, width as int, height as int, bytes_per_row as int),
{
    let mut out: Vec<u8> = Vec::new();
    let mut row: usize = 0;
    assert(data@.len() == data.len());
    while row < height
        invariant
            row <= height,
            0 < width,
            (height - 1) * bytes_per_row + width * 8 <= data@.len(),
            4 * width * height <= usize::MAX,
            data@.len() <= usize::MAX,
            out@.len() == 4 * (row * width),
            forall|i: int|
                0 <= i < out@.len() ==> out@[i] == half_byte(
                    data@,
                    width as int,
                    bytes_per_row as int,
                    i,
                ),
        decreases height - row,
    {
        let mut column: usize = 0;
        while column < width
            invariant
                row < height,
                column <= width,
                0 < width,
                (height - 1) * bytes_per_row + width * 8 <= data@.len(),
                4 * width * height <= usize::MAX,
                data@.len() <= usize::MAX,
                out@.len() == 4 * (row * width + column),
                forall|i: int|
                    0 <= i < out@.len() ==> out@[i] == half_byte(
                        data@,
                        width as int,
                        bytes_per_row as int,
                        i,
                    ),
            decreases width - column,
        {
            proof {
                lemma_pixel_within(
                    row as int,
                    column as int,
                    width as int,
                    height as int,
                    bytes_per_row as int,
                    data@.len() as int,
                );
                lemma_row_and_column(
                    row * width + column,
                    width as int,
                    row as int,
                    column as int,
                );
            }
            let at: usize = row * bytes_per_row + column * 8;
            let ghost pixel = row * width + column;
            let mut channel: usize = 0;
            while channel < 4
                invariant
                    channel <= 4,
                    at == row * bytes_per_row + column * 8,
                    at + 8 <= data@.len(),
                    data@.len() <= usize::MAX,
                    pixel == row * width + column,
                    pixel / (width as int) == row,
                    pixel % (width as int) == column,
                    out@.len() == 4 * pixel + channel,
                    forall|i: int|
                        0 <= i < out@.len() ==> out@[i] == half_byte(
                            data@,
                            width as int,
                            bytes_per_row as int,
                            i,
                        ),
                decreases 4 - channel,
            {
                let low: u16 = data[at + channel * 2] as u16;
                let high: u16 = data[at + channel * 2 + 1] as u16;
                out.push(half_to_byte(low + 256 * high));
                channel = channel + 1;
            }
            column = column + 1;
        }
        assert(row * width + width == (row + 1) * width) by (nonlinear_arith);
        row = row + 1;
    }
    assert(4 * (height * width) == 4 * width * height) by (nonlinear_arith);
    assert(out@ =~= half_converted(data@, width as int, height as int, bytes_per_row as int));
    out
}

/// Normalizes a rasterized native bitmap to 8-bit RGBA. At 24 bits per pixel
/// every RGB triple gets full opacity behind it; at 32 bits per pixel the
/// data passes through unchanged; at 64 bits per pixel every channel is read
/// as a 16-bit floating-point number. Any other bitmap yields nothing.
pub fn normalize_icon(bitmap: &Bitmap) -> (out: Option<IconData>)
    ensures
        out is Some <==> normalized(*bitmap) is Some,
        out matches Some(icon) ==> Some(icon@) == normalized(*bitmap),
{
    let data = match &bitmap.data {
        Some(data) => data,
        None => {
            return None;
        },
    };
    let width = bitmap.width;
    let height = bitmap.height;
    assert(0 <= width * height <= 0xffff_ffff * 0xffff_ffff) by (nonlinear_arith)
        requires
            0 <= width <= 0xffff_ffff,
            0 <= height <= 0xffff_ffff,
    ;
    let pixels: u64 = width as u64 * height as u64;
    if pixels > (usize::MAX / 4) as u64 {
        return None;
    }
    let count: usize = pixels as usize;
    if bitmap.bits_per_pixel == 24 && data.len() == 3 * count {
        Some(IconData { width, height, rgba: expand_rgb(data, count) })
    } else if bitmap.bits_per_pixel == 32 && data.len() == 4 * count {
        Some(IconData { width, height, rgba: copy_bytes(data) })
    } else if bitmap.bits_per_pixel == 64 {
        if width == 0 || height == 0 {
            let rgba: Vec<u8> = Vec::new();
            assert(rgba@ =~= half_converted(
                data@,
                width as int,
                height as int,
                bitmap.bytes_per_row as int,
            )) by {
                assert(4 * width * height == 0) by (nonlinear_arith)
                    requires
                        width == 0 || height == 0,
                ;
            }
            return Some(IconData { width, height, rgba });
        }
        assert(0 <= (height - 1) * bitmap.bytes_per_row <= 0xffff_ffff
            * 0xffff_ffff_ffff_ffff) by (nonlinear_arith)
            requires
                0 <= height - 1 <= 0xffff_ffff,
                0 <= bitmap.bytes_per_row <= 0xffff_ffff_ffff_ffff,
        ;
        let needed: u128 = (height as u128 - 1) * (bitmap.bytes_per_row as u128) + (width as u128)
            * 8;
        if needed <= data.len() as u128 {
            assert(4 * (width as usize) * (height as usize) == 4 * pixels) by (nonlinear_arith)
                requires
                    pixels == width * height,
            ;
            Some(
                IconData {
                    width,
                    height,
                    rgba: convert_half(
                        data,
                        width as usize,
                        height as usize,
                        bitmap.bytes_per_row,
                    ),
                },
            )
        } else {
            None
        }
    } else {
        None
    }
}

/// A copy of a byte vector.
fn copy_bytes(data: &Vec<u8>) -> (out: Vec<u8>)
    ensures
        out@ == data@,
{
    let out = data.clone();
    assert(out@ =~= data@);
    out
}

/// A bitmap of 32 bits per pixel whose data holds four bytes for each pixel
/// normalizes to that very data, byte for byte, under the same dimensions.
pub proof fn lemma_rgba_passes_through(bitmap: Bitmap)
    requires
        bitmap.bits_per_pixel == 32,
        bitmap.data is Some,
        bitmap.data.unwrap()@.len() == 4 * bitmap.width * bitmap.height,
    ensures
        normalized(bitmap) == Some(
            IconView {
                width: bitmap.width,
                height: bitmap.height,
                rgba: bitmap.data.unwrap()@,
            },
        ),
{
    let data = bitmap.data.unwrap();
    assert(data@.len() == data.len());
    assert(4 * bitmap.width * bitmap.height == 4 * (bitmap.width * bitmap.height)) by (nonlinear_arith);
}

/// A bitmap of 24 bits per pixel whose data holds three bytes for each pixel
/// normalizes to four bytes for each pixel: the three it had, then 255.
pub proof fn lemma_rgb_gets_full_opacity(bitmap: Bitmap, pixel: int)
    requires
        bitmap.bits_per_pixel == 24,
        bitmap.data is Some,
        bitmap.data.unwrap()@.len() == 3 * bitmap.width * bitmap.height,
        4 * bitmap.width * bitmap.height <= usize::MAX,
        0 <= pixel < bitmap.width * bitmap.height,
    ensures
        normalized(bitmap) is Some,
        normalized(bitmap).unwrap().width == bitmap.width,
        normalized(bitmap).unwrap().height == bitmap.height,
        normalized(bitmap).unwrap().rgba.len() == 4 * bitmap.width * bitmap.height,
        normalized(bitmap).unwrap().rgba[4 * pixel] == bitmap.data.unwrap()@[3 * pixel],
        normalized(bitmap).unwrap().rgba[4 * pixel + 1] == bitmap.data.unwrap()@[3 * pixel + 1],
        normalized(bitmap).unwrap().rgba[4 * pixel + 2] == bitmap.data.unwrap()@[3 * pixel + 2],
        normalized(bitmap).unwrap().rgba[4 * pixel + 3] == 255,
{
    assert(4 * bitmap.width * bitmap.height == 4 * (bitmap.width * bitmap.height)) by (nonlinear_arith);
    assert(3 * bitmap.width * bitmap.height == 3 * (bitmap.width * bitmap.height)) by (nonlinear_arith);
}

/// For a positive number below 1 that is not subnormal, with exponent field
/// `e` and mantissa field `m`, the channel value is 255 times the number, cut
/// to a whole number: it is the greatest `v` with
/// `v * 2^(25 - e) <= 255 * (1024 + m)`.
pub proof fn lemma_unit_byte_is_scaled(bits: u16)
    requires
        0x0400 <= bits < 0x3c00,
    ensures
        ({
            let e = (bits as int / 1024) % 32;
            let m = bits as int % 1024;
            let unit = vstd::arithmetic::power2::pow2((25 - e) as nat);
            &&& 1 <= e <= 14
            &&& unit_byte(bits) * unit <= 255 * (1024 + m)
            &&& 255 * (1024 + m) < (unit_byte(bits) + 1) * unit
        }),
{
    let exponent = (bits >> 10) & 0x1f;
    let mantissa = bits & 0x3ff;
    assert((bits >> 10) & 0x1f == (bits / 1024) % 32) by (bit_vector);
    assert(bits & 0x3ff == bits % 1024) by (bit_vector);
    assert(1 <= (bits >> 10) & 0x1f <= 14) by (bit_vector)
        requires
            0x0400 <= bits < 0x3c00,
    ;
    let scaled = ((1024 + mantissa) * 255) as u32;
    let shift = (25 - exponent) as u32;
    let unit = vstd::arithmetic::power2::pow2(shift as nat);
    vstd::bits::lemma_u32_shr_is_div(scaled, shift);
    vstd::arithmetic::power2::lemma_pow2_pos(shift as nat);
    assert(scaled >> shift < 256) by (bit_vector)
        requires
            scaled < 2048 * 255,
            11 <= shift <= 24,
    ;
    vstd::arithmetic::div_mod::lemma_fundamental_div_mod(scaled as int, unit as int);
    vstd::arithmetic::div_mod::lemma_mod_pos_bound(scaled as int, unit as int);
    let quotient = scaled as int / unit as int;
    assert(unit * quotient + quotient * 0 == quotient * unit) by (nonlinear_arith);
    assert((quotient + 1) * unit == quotient * unit + unit) by (nonlinear_arith);
}

} // verus!
