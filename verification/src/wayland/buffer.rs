//! Pixel buffers that are shared with the compositor.

use vstd::prelude::*;

use crate::wayland::Format;

verus! {

/// How a buffer's bytes are laid out. The dimensions are untransformed.
#[derive(Debug, Clone, Copy, PartialEq, Eq, Structural)]
pub struct Buffer {
    pub format: Format,
    pub width: usize,
    pub height: usize,
    /// Buffer size in bytes.
    pub buf_size: usize,
}

/// Why a buffer cannot be made.
#[derive(Debug, Clone, Copy, PartialEq, Eq, Structural)]
pub enum BufferError {
    /// A side is negative.
    Negative,
    /// The number of bytes does not fit in an `i32`.
    TooLarge,
}

/// Channel `c` (red, green, blue) of the pixel at `(x, y)` of a buffer `width` pixels wide.
pub open spec fn rgb_channel(data: Seq<u8>, format: Format, width: int, x: int, y: int, c: int) -> u8 {
    let start = (width * y + x) * format.bytes();
    match format {
        Format::Argb8888 => data[start + 2 - c],
        Format::Bgr888 => data[start + c],
    }
}

impl Buffer {
    /// The size in bytes is that of the pixels, and fits in an `i32`.
    pub open spec fn wf(self) -> bool {
        &&& self.buf_size == self.width * self.height * self.format.bytes()
        &&& self.buf_size <= i32::MAX
        &&& self.width <= i32::MAX
        &&& self.height <= i32::MAX
    }

    /// Whether the size in bytes is that of the pixels, and fits in an `i32`.
    pub fn valid(&self) -> (r: bool)
        ensures
            r == self.wf(),
    {
        if self.width > 0x7fff_ffff || self.height > 0x7fff_ffff || self.buf_size > 0x7fff_ffff {
            return false;
        }
        proof {
            let w = self.width as int;
            let h = self.height as int;
            assert(0 <= w * h <= 0x4000_0000_0000_0000) by (nonlinear_arith)
                requires
                    0 <= w <= 0x7fff_ffff,
                    0 <= h <= 0x7fff_ffff,
            ;
            assert(w * h * 4 <= 0x1_0000_0000_0000_0000);
        }
        let pixels: u128 = self.width as u128 * self.height as u128;
        self.buf_size as u128 == match self.format {
            Format::Argb8888 => pixels * 4,
            Format::Bgr888 => pixels * 3,
        }
    }

    /// The layout of a buffer of the given size.
    pub fn new(format: Format, width: i32, height: i32) -> (r: Result<Self, BufferError>)
        ensures
            match r {
                Ok(b) => b.wf() && b.format == format && b.width == width && b.height == height
                    && width * format.bytes() <= i32::MAX,
                Err(BufferError::Negative) => width < 0 || height < 0,
                Err(BufferError::TooLarge) => width >= 0 && height >= 0 && (width * format.bytes()
                    > i32::MAX || width * height * format.bytes() > i32::MAX),
            },
    {
        if width < 0 || height < 0 {
            return Err(BufferError::Negative);
        }
        let size: i32 = format.size() as i32;
        proof {
            assert(width * height * size == height * (width * size)) by (nonlinear_arith);
        }
        let stride: i32 = match width.checked_mul(size) {
            None => {
                return Err(BufferError::TooLarge);
            },
            Some(s) => s,
        };
        proof {
            assert(height * stride >= 0) by (nonlinear_arith)
                requires
                    height >= 0,
                    stride >= 0,
            ;
        }
        let total: i32 = match height.checked_mul(stride) {
            None => {
                return Err(BufferError::TooLarge);
            },
            Some(t) => t,
        };
        Ok(
            Buffer {
                format,
                width: width as usize,
                height: height as usize,
                buf_size: total as usize,
            },
        )
    }

    /// How many bytes one row takes.
    pub fn stride(&self) -> (r: i32)
        requires
            self.wf(),
            self.height > 0,
        ensures
            r == self.width * self.format.bytes(),
    {
        proof {
            lemma_stride(*self);
        }
        (self.width * self.format.size()) as i32
    }

    /// The red, green and blue bytes of one pixel.
    pub fn read_rgb(&self, data: &[u8], x: i32, y: i32) -> (r: (u8, u8, u8))
        requires
            self.wf(),
            data@.len() == self.buf_size,
            0 <= x < self.width,
            0 <= y < self.height,
        ensures
            r.0 == rgb_channel(data@, self.format, self.width as int, x as int, y as int, 0),
            r.1 == rgb_channel(data@, self.format, self.width as int, x as int, y as int, 1),
            r.2 == rgb_channel(data@, self.format, self.width as int, x as int, y as int, 2),
    {
        proof {
            lemma_pixel_range(*self, x as int, y as int);
        }
        let start: usize = (self.width * y as usize + x as usize) * self.format.size();
        match self.format {
            Format::Argb8888 => (data[start + 2], data[start + 1], data[start]),
            Format::Bgr888 => (data[start], data[start + 1], data[start + 2]),
        }
    }

    /// Reads the pixels of one row from `(x, y)` on into `row`, three bytes each.
    pub fn read_normal_row(&self, data: &[u8], x: i32, y: i32, row: &mut [u8])
        requires
            self.wf(),
            data@.len() == self.buf_size,
            0 <= x < self.width,
            0 <= y < self.height,
            old(row)@.len() % 3 == 0,
            x + old(row)@.len() / 3 <= self.width,
        ensures
            final(row)@.len() == old(row)@.len(),
            forall|i: int, c: int|
                0 <= i < old(row)@.len() / 3 && 0 <= c < 3 ==> #[trigger] final(row)@[i * 3 + c]
                    == rgb_channel(
                    data@,
                    self.format,
                    self.width as int,
                    x + i,
                    y as int,
                    c,
                ),
    {
        let total: usize = row.len();
        let count: usize = total / 3;
        let mut i: usize = 0;
        while i < count
            invariant
                self.wf(),
                data@.len() == self.buf_size,
                0 <= x < self.width,
                0 <= y < self.height,
                x + count <= self.width,
                i <= count,
                count * 3 == row@.len(),
                row@.len() == total,
                forall|k: int, c: int|
                    0 <= k < i && 0 <= c < 3 ==> #[trigger] row@[k * 3 + c] == rgb_channel(
                        data@,
                        self.format,
                        self.width as int,
                        x + k,
                        y as int,
                        c,
                    ),
            decreases count - i,
        {
            let (red, green, blue) = self.read_rgb(data, x + i as i32, y);
            row[i * 3] = red;
            row[i * 3 + 1] = green;
            row[i * 3 + 2] = blue;
            i = i + 1;
        }
    }
}

/// A row's bytes fit in an `i32`.
proof fn lemma_stride(b: Buffer)
    requires
        b.wf(),
        b.height > 0,
    ensures
        0 <= b.width * b.format.bytes() <= b.buf_size,
{
    let w = b.width as int;
    let h = b.height as int;
    let s = b.format.bytes();
    assert(0 <= w * s <= w * h * s) by (nonlinear_arith)
        requires
            w >= 0,
            h >= 1,
            s >= 3,
    ;
}

/// The bytes of a pixel in range lie within the buffer.
pub proof fn lemma_pixel_range(b: Buffer, x: int, y: int)
    requires
        b.wf(),
        0 <= x < b.width,
        0 <= y < b.height,
    ensures
        0 <= b.width * y,
        b.width * y + x < b.width * b.height,
        0 <= (b.width * y + x) * b.format.bytes(),
        (b.width * y + x) * b.format.bytes() + b.format.bytes() <= b.buf_size,
        b.width * b.height <= i32::MAX,
{
    let w = b.width as int;
    let h = b.height as int;
    let s = b.format.bytes();
    assert(0 <= w * y && w * y + w <= w * h) by (nonlinear_arith)
        requires
            0 <= y,
            y + 1 <= h,
            0 < w,
    ;
    assert((w * y + x) * s + s <= w * h * s) by (nonlinear_arith)
        requires
            w * y + x + 1 <= w * h,
            s >= 3,
    ;
    assert(w * h <= w * h * s) by (nonlinear_arith)
        requires
            0 <= w * h,
            s >= 3,
    ;
    assert(0 <= (w * y + x) * s) by (nonlinear_arith)
        requires
            0 <= w * y + x,
            s >= 3,
    ;
}

/// The colours of a pixel stand in a row in memory, blue first in one format and red first in the
/// other, the pixels of a row follow each other, and so do the rows.
pub proof fn colours_are_read_by_format(
    data: Seq<u8>,
    width: int,
    x: int,
    y: int,
    at: int,
)
    ensures
        at == 4 * (y * width + x) ==> {
            &&& rgb_channel(data, Format::Argb8888, width, x, y, 2) == data[at]
            &&& rgb_channel(data, Format::Argb8888, width, x, y, 1) == data[at + 1]
            &&& rgb_channel(data, Format::Argb8888, width, x, y, 0) == data[at + 2]
        },
        at == 3 * (y * width + x) ==> {
            &&& rgb_channel(data, Format::Bgr888, width, x, y, 0) == data[at]
            &&& rgb_channel(data, Format::Bgr888, width, x, y, 1) == data[at + 1]
            &&& rgb_channel(data, Format::Bgr888, width, x, y, 2) == data[at + 2]
        },
{
    assert(width * y == y * width) by (nonlinear_arith);
}

} // verus!
