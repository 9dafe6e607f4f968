//! Colour conversion of single pixels, and chroma downsampling of whole frames.

use crate::text::{append, bytes_eq, copy_range};
use vstd::prelude::*;
use vstd::string::StringSliceAdditionalSpecFns;

verus! {

/// `x` held to the range of a colour channel.
pub open spec fn channel(x: int) -> u8 {
    if x < 0 {
        0
    } else if x > 255 {
        255
    } else {
        x as u8
    }
}

/// The red channel of a pixel, from luma and red-difference chroma.
pub open spec fn red_of(y: int, v: int) -> u8 {
    channel(((y - 16) * 596 + 817 * (v - 128)) / 512)
}

/// The green channel of a pixel.
pub open spec fn green_of(y: int, u: int, v: int) -> u8 {
    channel(((y - 16) * 596 - (v - 128) * 416 - (u - 128) * 200) / 512)
}

/// The blue channel of a pixel, from luma and blue-difference chroma.
pub open spec fn blue_of(y: int, u: int) -> u8 {
    channel(((y - 16) * 596 + (u - 128) * 1033) / 512)
}

/// Whether `x` is a value of 32-bit signed arithmetic.
pub open spec fn fits(x: int) -> bool {
    i32::MIN <= x <= i32::MAX
}

/// Whether the conversion of a pixel stays within 32-bit signed arithmetic at every step.
pub open spec fn convertible(y: int, u: int, v: int) -> bool {
    &&& fits(y - 16) && fits(u - 128) && fits(v - 128)
    &&& fits((y - 16) * 596) && fits(817 * (v - 128)) && fits((v - 128) * 416)
    &&& fits((u - 128) * 200) && fits((u - 128) * 1033)
    &&& fits((y - 16) * 596 + 817 * (v - 128))
    &&& fits((y - 16) * 596 - (v - 128) * 416)
    &&& fits((y - 16) * 596 - (v - 128) * 416 - (u - 128) * 200)
    &&& fits((y - 16) * 596 + (u - 128) * 1033)
}

fn shifted(x: i32) -> (q: i32)
    ensures
        q == x / 512,
{
    let wide: i64 = x as i64;
    if wide >= 0 {
        (wide / 512) as i32
    } else {
        (-((-wide + 511) / 512)) as i32
    }
}

fn clamped(x: i32) -> (c: u8)
    ensures
        c == channel(x as int),
{
    if x < 0 {
        0
    } else if x > 255 {
        255
    } else {
        x as u8
    }
}

/// Converts one pixel from luma and chroma to red, green and blue, in fixed-point
/// arithmetic with nine fractional bits.
pub fn yuyv_to_rgb(y: i32, u: i32, v: i32) -> (rgb: (u8, u8, u8))
    requires
        convertible(y as int, u as int, v as int),
    ensures
        rgb.0 == red_of(y as int, v as int),
        rgb.1 == green_of(y as int, u as int, v as int),
        rgb.2 == blue_of(y as int, u as int),
{
    let y = y - 16;
    let u = u - 128;
    let v = v - 128;
    let red = clamped(shifted(y * 596 + 817 * v));
    let green = clamped(shifted(y * 596 - v * 416 - u * 200));
    let blue = clamped(shifted(y * 596 + u * 1033));
    (red, green, blue)
}

/// How two rows of full-resolution chroma become one row of half resolution.
#[derive(Clone, Copy, Debug, PartialEq, Eq)]
pub enum Mode {
    /// Takes one sample of each two-by-two block.
    Fast,
    /// Takes the mean of each two-by-two block.
    Quality,
}

/// One byte of the half-resolution chroma plane: the byte at column `col` of row
/// `row`. Even columns hold the blue-difference sample of a two-by-two block of
/// pixels, odd columns the red-difference sample. The full-resolution chroma
/// plane follows the luma plane in `raw`, two bytes for each pixel.
pub open spec fn chroma_byte(raw: Seq<u8>, width: int, height: int, mode: Mode, row: int, col: int) -> u8 {
    let part = col % 2;
    let upper = width * height + (2 * row) * (2 * width) + 2 * (col - part);
    let lower = upper + 2 * width;
    match mode {
        Mode::Fast => if part == 0 {
            raw[upper]
        } else {
            raw[lower + 3]
        },
        Mode::Quality => ((raw[upper + part] + raw[upper + part + 2] + raw[lower + part] + raw[lower
            + part + 2]) / 4) as u8,
    }
}

/// One row of the half-resolution chroma plane.
pub open spec fn chroma_row(raw: Seq<u8>, width: int, height: int, mode: Mode, row: int) -> Seq<u8> {
    Seq::new(width as nat, |col: int| chroma_byte(raw, width, height, mode, row, col))
}

/// The first `rows` rows of the half-resolution chroma plane, one after another.
pub open spec fn chroma_rows(raw: Seq<u8>, width: int, height: int, mode: Mode, rows: int) -> Seq<u8>
    decreases rows,
{
    if rows <= 0 {
        Seq::empty()
    } else {
        chroma_rows(raw, width, height, mode, rows - 1) + chroma_row(
            raw,
            width,
            height,
            mode,
            rows - 1,
        )
    }
}

/// A frame with full-resolution chroma as a frame with half-resolution chroma: the
/// luma plane as it is, then one chroma row for each two rows of pixels.
pub open spec fn nv12_of(raw: Seq<u8>, width: int, height: int, mode: Mode) -> Seq<u8> {
    raw.subrange(0, width * height) + chroma_rows(raw, width, height, mode, height / 2)
}

proof fn lemma_block_in_frame(width: int, height: int, row: int, px: int)
    requires
        0 <= row,
        2 * row + 2 <= height,
        0 <= px,
        px + 2 <= width,
    ensures
        0 <= (2 * row) * (2 * width) + 2 * px,
        (2 * row) * (2 * width) + 2 * px + 2 * width + 3 < 2 * (width * height),
        0 <= width * height,
{
    assert((2 * row) * (2 * width) + 2 * width == (2 * row + 1) * (2 * width)) by (nonlinear_arith);
    assert((2 * row + 1) * (2 * width) <= (height - 1) * (2 * width)) by (nonlinear_arith)
        requires
            2 * row + 1 <= height - 1,
            0 <= width,
    ;
    assert((height - 1) * (2 * width) == 2 * (width * height) - 2 * width) by (nonlinear_arith);
    assert(0 <= (2 * row) * (2 * width)) by (nonlinear_arith)
        requires
            0 <= row,
            0 <= width,
    ;
    assert(0 <= width * height) by (nonlinear_arith)
        requires
            0 <= width,
            0 <= height,
    ;
}

fn downsample_row(raw: &[u8], width: usize, height: usize, mode: Mode, row: usize) -> (out: Vec<u8>)
    requires
        width % 2 == 0,
        raw@.len() == 3 * (width * height),
        2 * row + 2 <= height,
    ensures
        out@ == chroma_row(raw@, width as int, height as int, mode, row as int),
{
    let ghost want = chroma_row(raw@, width as int, height as int, mode, row as int);
    let total: usize = raw.len();
    let mut out: Vec<u8> = Vec::new();
    let mut px: usize = 0;
    while px < width
        invariant
            px <= width,
            px % 2 == 0,
            width % 2 == 0,
            raw@.len() == 3 * (width * height),
            2 * row + 2 <= height,
            total == raw@.len(),
            want == chroma_row(raw@, width as int, height as int, mode, row as int),
            out@ == want.subrange(0, px as int),
        decreases width - px,
    {
        proof {
            lemma_block_in_frame(width as int, height as int, row as int, px as int);
        }
        let luma: usize = width * height;
        let upper: usize = luma + (2 * row) * (2 * width) + 2 * px;
        let lower: usize = upper + 2 * width;
        let (u, v): (u8, u8) = match mode {
            Mode::Fast => (raw[upper], raw[lower + 3]),
            Mode::Quality => {
                let su: u16 = raw[upper] as u16 + raw[upper + 2] as u16 + raw[lower] as u16
                    + raw[lower + 2] as u16;
                let sv: u16 = raw[upper + 1] as u16 + raw[upper + 3] as u16 + raw[lower + 1] as u16
                    + raw[lower + 3] as u16;
                ((su / 4) as u8, (sv / 4) as u8)
            },
        };
        proof {
            assert(want[px as int] == chroma_byte(
                raw@,
                width as int,
                height as int,
                mode,
                row as int,
                px as int,
            ));
            assert(want[px + 1] == chroma_byte(
                raw@,
                width as int,
                height as int,
                mode,
                row as int,
                px + 1,
            ));
            assert((px + 1) % 2 == 1);
            assert(u == want[px as int]);
            assert(v == want[px + 1]);
        }
        out.push(u);
        out.push(v);
        px += 2;
        assert(out@ =~= want.subrange(0, px as int));
    }
    assert(want.subrange(0, width as int) =~= want);
    out
}

/// Halves the chroma resolution of a frame: `raw` holds a luma plane of `width` by
/// `height` bytes and a chroma plane with two bytes for each pixel; the result holds
/// the same luma plane and a chroma plane with two bytes for each two-by-two block.
pub fn nv24_444_to_nv12_downsampler(raw_buf: &[u8], width: usize, height: usize, mode: Mode) -> (out: Vec<u8>)
    requires
        width % 2 == 0,
        height % 2 == 0,
        height > 0,
        raw_buf@.len() == 3 * (width * height),
    ensures
        out@ == nv12_of(raw_buf@, width as int, height as int, mode),
{
    assert(0 <= width * height) by (nonlinear_arith)
        requires
            0 <= width,
            0 <= height,
    ;
    let total: usize = raw_buf.len();
    let luma: usize = width * height;
    let mut out = copy_range(raw_buf, 0, luma);
    let half: usize = height / 2;
    let mut row: usize = 0;
    while row < half
        invariant
            row <= half,
            half == height / 2,
            width % 2 == 0,
            height % 2 == 0,
            luma == width * height,
            raw_buf@.len() == 3 * (width * height),
            out@ == raw_buf@.subrange(0, luma as int) + chroma_rows(
                raw_buf@,
                width as int,
                height as int,
                mode,
                row as int,
            ),
        decreases half - row,
    {
        let line = downsample_row(raw_buf, width, height, mode, row);
        append(&mut out, line.as_slice());
        row += 1;
        assert(out@ =~= raw_buf@.subrange(0, luma as int) + chroma_rows(
            raw_buf@,
            width as int,
            height as int,
            mode,
            row as int,
        ));
    }
    out
}

/// The pixel formats that the capture device delivers.
#[derive(Clone, Copy, Debug, PartialEq, Eq)]
pub enum StreamPixelFormat {
    NV12,
    BGR3,
    NV24,
}

/// The pixel format that a four-character code names.
pub open spec fn format_named(name: Seq<u8>) -> Option<StreamPixelFormat> {
    if name == "NV12".spec_bytes() {
        Some(StreamPixelFormat::NV12)
    } else if name == "BGR3".spec_bytes() {
        Some(StreamPixelFormat::BGR3)
    } else if name == "NV24".spec_bytes() {
        Some(StreamPixelFormat::NV24)
    } else {
        None
    }
}

/// Reads the four-character code of a pixel format.
pub fn pixel_format(name: &[u8]) -> (format: Option<StreamPixelFormat>)
    ensures
        format == format_named(name@),
{
    if bytes_eq(name, "NV12".as_bytes()) {
        Some(StreamPixelFormat::NV12)
    } else if bytes_eq(name, "BGR3".as_bytes()) {
        Some(StreamPixelFormat::BGR3)
    } else if bytes_eq(name, "NV24".as_bytes()) {
        Some(StreamPixelFormat::NV24)
    } else {
        None
    }
}

/// Takes an interleaved chroma plane apart: `count` pairs of bytes that begin at
/// index `from` of `buf` become a plane of the first bytes and a plane of the second.
pub fn split_chroma(buf: &[u8], from: usize, count: usize) -> (planes: (Vec<u8>, Vec<u8>))
    requires
        from + 2 * count <= buf@.len(),
    ensures
        planes.0@ == Seq::new(count as nat, |i: int| buf@[from + 2 * i]),
        planes.1@ == Seq::new(count as nat, |i: int| buf@[from + 2 * i + 1]),
{
    let total: usize = buf.len();
    let mut first: Vec<u8> = Vec::new();
    let mut second: Vec<u8> = Vec::new();
    let mut i: usize = 0;
    while i < count
        invariant
            i <= count,
            total == buf@.len(),
            from + 2 * count <= buf@.len(),
            first@ == Seq::new(i as nat, |k: int| buf@[from + 2 * k]),
            second@ == Seq::new(i as nat, |k: int| buf@[from + 2 * k + 1]),
        decreases count - i,
    {
        first.push(buf[from + 2 * i]);
        second.push(buf[from + 2 * i + 1]);
        i += 1;
        assert(first@ =~= Seq::new(i as nat, |k: int| buf@[from + 2 * k]));
        assert(second@ =~= Seq::new(i as nat, |k: int| buf@[from + 2 * k + 1]));
    }
    (first, second)
}

/// One colour.
#[derive(Clone, Copy, Debug, PartialEq, Eq)]
pub struct Color {
    pub r: u8,
    pub g: u8,
    pub b: u8,
}

} // verus!
