//! A canvas laid out as the pixel array of a 24-bit bitmap file, and the
//! header of that file.
//!
//! Rows are stored bottom-up, three bytes per pixel in the order blue, green,
//! red, each row followed by its padding.

use crate::canvas::{Canvas, Pixel};
use vstd::prelude::*;

verus! {

/// The length of a bitmap file's header in bytes.
pub const HEADER_LEN: u32 = 54;

/// The number of bytes one stored row takes: three per pixel, and as padding
/// the remainder of that count by four.
pub open spec fn scanline_len(width: int) -> int {
    3 * width + (3 * width) % 4
}

/// The two bytes of `v`, least significant first.
pub open spec fn le_bytes16(v: int) -> Seq<u8> {
    seq![(v % 256) as u8, ((v / 256) % 256) as u8]
}

/// The four bytes of `v`, least significant first.
pub open spec fn le_bytes32(v: int) -> Seq<u8> {
    seq![
        (v % 256) as u8,
        ((v / 256) % 256) as u8,
        ((v / 65536) % 256) as u8,
        ((v / 16777216) % 256) as u8,
    ]
}

/// The header of a bitmap file that holds `height` rows of `width` pixels in
/// `data_len` bytes: the signature `BM`, the file's size, the offset of the
/// pixel data, and an info header for one plane of 24 uncompressed bits per
/// pixel.
pub open spec fn header_bytes(width: int, height: int, data_len: int) -> Seq<u8> {
    le_bytes16(0x4d42) + le_bytes32(data_len + HEADER_LEN) + le_bytes32(0) + le_bytes32(
        HEADER_LEN as int,
    ) + le_bytes32(40) + le_bytes32(width) + le_bytes32(height) + le_bytes16(1) + le_bytes16(24)
        + le_bytes32(0) + le_bytes32(0) + le_bytes32(0) + le_bytes32(0) + le_bytes32(0)
        + le_bytes32(0)
}

/// Rows `r1 < r2` of `s` bytes each lie at least `s` bytes apart.
proof fn lemma_rows_apart(s: int, r1: int, r2: int)
    requires
        0 <= s,
        0 <= r1 < r2,
    ensures
        r1 * s + s <= r2 * s,
        0 <= r1 * s,
{
    assert(r1 * s + s <= r2 * s && 0 <= r1 * s) by (nonlinear_arith)
        requires
            0 <= s,
            0 <= r1,
            r1 + 1 <= r2,
    ;
}

/// A canvas whose pixels are laid out as a bitmap file stores them.
pub struct BmpCanvas {
    width: u32,
    height: u32,
    scanline_size: u32,
    pixels: Vec<u8>,
}

impl BmpCanvas {
    /// The stored pixel array: `height` rows of `scanline_len(width)` bytes.
    pub closed spec fn bytes(&self) -> Seq<u8> {
        self.pixels@
    }

    /// Where the three bytes of the pixel at column `x` of row `y` begin.
    pub open spec fn offset(&self, x: int, y: int) -> int {
        (self.spec_height() - 1 - y) * scanline_len(self.spec_width()) + 3 * x
    }

    /// A canvas of `height` rows of `width` pixels, all black.
    pub fn new(width: u32, height: u32) -> (canvas: BmpCanvas)
        requires
            scanline_len(width as int) <= u32::MAX,
            scanline_len(width as int) * height <= usize::MAX,
        ensures
            canvas.wf(),
            canvas.spec_width() == width,
            canvas.spec_height() == height,
            canvas.bytes() == Seq::new(
                (scanline_len(width as int) * height) as nat,
                |i: int| 0u8,
            ),
            forall|x: int, y: int|
                0 <= x < width && 0 <= y < height ==> #[trigger] canvas.pixel_at(x, y) == (Pixel {
                    b: 0,
                    g: 0,
                    r: 0,
                }),
    {
        let mut scanline_size: u32 = width * 3;
        let padding_size: u32 = scanline_size % 4;
        scanline_size = scanline_size + padding_size;
        assert(0 <= scanline_size * height <= usize::MAX) by (nonlinear_arith)
            requires
                0 <= scanline_size,
                0 <= height,
                scanline_size * height <= usize::MAX,
        ;
        let pixels: Vec<u8> = vec![0u8; scanline_size as usize * height as usize];
        let canvas = BmpCanvas { width, height, pixels, scanline_size };
        assert(canvas.pixels@ =~= Seq::new(
            (scanline_len(width as int) * height) as nat,
            |i: int| 0u8,
        ));
        assert forall|x: int, y: int| 0 <= x < width && 0 <= y < height implies #[trigger]
            canvas.pixel_at(x, y) == (Pixel { b: 0, g: 0, r: 0 }) by {
            canvas.lemma_pixel_in_bounds(x, y);
        }
        canvas
    }

    /// The stored pixel array, as a bitmap file holds it after its header.
    pub fn pixel_data(&self) -> (data: &Vec<u8>)
        ensures
            data@ == self.bytes(),
    {
        &self.pixels
    }

    /// The stored array holds `height` rows of `scanline_len(width)` bytes.
    pub proof fn lemma_bytes_len(&self)
        requires
            self.wf(),
        ensures
            self.bytes().len() == scanline_len(self.spec_width()) * self.spec_height(),
    {
    }

    /// The three bytes of a pixel within the canvas lie within the stored
    /// array.
    pub proof fn lemma_pixel_in_bounds(&self, x: int, y: int)
        requires
            self.wf(),
            0 <= x < self.spec_width(),
            0 <= y < self.spec_height(),
        ensures
            0 <= self.offset(x, y),
            self.offset(x, y) + 2 < self.bytes().len(),
    {
        let s = scanline_len(self.spec_width());
        let h = self.spec_height();
        let row = h - 1 - y;
        assert(0 <= row * s && row * s + s <= h * s && s * h == h * s) by (nonlinear_arith)
            requires
                0 <= row,
                row + 1 <= h,
                0 <= s,
        ;
    }

    /// The bytes of two different pixels within the canvas do not overlap.
    pub proof fn lemma_pixels_apart(&self, x1: int, y1: int, x2: int, y2: int)
        requires
            self.wf(),
            0 <= x1 < self.spec_width(),
            0 <= y1 < self.spec_height(),
            0 <= x2 < self.spec_width(),
            0 <= y2 < self.spec_height(),
            x1 != x2 || y1 != y2,
        ensures
            self.offset(x1, y1) + 3 <= self.offset(x2, y2) || self.offset(x2, y2) + 3
                <= self.offset(x1, y1),
    {
        let s = scanline_len(self.spec_width());
        let h = self.spec_height();
        if y1 < y2 {
            lemma_rows_apart(s, h - 1 - y2, h - 1 - y1);
        } else if y2 < y1 {
            lemma_rows_apart(s, h - 1 - y1, h - 1 - y2);
        }
    }

    fn index_of(&self, x: u32, y: u32) -> (idx: usize)
        requires
            self.wf(),
            x < self.spec_width(),
            y < self.spec_height(),
        ensures
            idx == self.offset(x as int, y as int),
            idx + 2 < self.bytes().len() <= usize::MAX,
    {
        let len = self.pixels.len();
        proof {
            self.lemma_pixel_in_bounds(x as int, y as int);
            let s = scanline_len(self.spec_width());
            let row = self.spec_height() - 1 - y;
            assert(0 <= row * s) by (nonlinear_arith)
                requires
                    0 <= row,
                    0 <= s,
            ;
            assert(self.offset(x as int, y as int) == row * s + 3 * x);
        }
        (self.height - 1 - y) as usize * self.scanline_size as usize + x as usize * 3
    }
}

impl Canvas for BmpCanvas {
    closed spec fn wf(&self) -> bool {
        &&& self.scanline_size == scanline_len(self.width as int)
        &&& self.pixels@.len() == self.scanline_size * self.height
    }

    closed spec fn spec_width(&self) -> int {
        self.width as int
    }

    closed spec fn spec_height(&self) -> int {
        self.height as int
    }

    open spec fn pixel_at(&self, x: int, y: int) -> Pixel {
        let at = self.offset(x, y);
        Pixel { b: self.bytes()[at], g: self.bytes()[at + 1], r: self.bytes()[at + 2] }
    }

    /// Writes the pixel's three bytes, blue first, where
    /// [`BmpCanvas::offset`] says, and no other byte.
    fn set_pixel(&mut self, x: u32, y: u32, pixel: Pixel)
        ensures
            final(self).bytes() == old(self).bytes().update(
                old(self).offset(x as int, y as int),
                pixel.b,
            ).update(old(self).offset(x as int, y as int) + 1, pixel.g).update(
                old(self).offset(x as int, y as int) + 2,
                pixel.r,
            ),
    {
        let idx = self.index_of(x, y);
        self.pixels[idx] = pixel.b;
        self.pixels[idx + 1] = pixel.g;
        self.pixels[idx + 2] = pixel.r;
        proof {
            assert forall|i: int, j: int|
                0 <= i < old(self).spec_width() && 0 <= j < old(self).spec_height() && (i != x
                    || j != y) implies #[trigger] self.pixel_at(i, j) == old(self).pixel_at(
                i,
                j,
            ) by {
                old(self).lemma_pixels_apart(i, j, x as int, y as int);
                old(self).lemma_pixel_in_bounds(i, j);
            }
        }
    }

    fn get_pixel(&self, x: u32, y: u32) -> (pixel: Pixel) {
        let idx = self.index_of(x, y);
        Pixel { b: self.pixels[idx], g: self.pixels[idx + 1], r: self.pixels[idx + 2] }
    }

    fn height(&self) -> (h: u32) {
        self.height
    }

    fn width(&self) -> (w: u32) {
        self.width
    }
}

/// Writes the two bytes of `v` into `header` at `at`, least significant first.
fn put16(header: &mut [u8; 54], at: usize, v: u16)
    requires
        at + 2 <= 54,
    ensures
        final(header)@ == old(header)@.update(at as int, le_bytes16(v as int)[0]).update(
            at + 1,
            le_bytes16(v as int)[1],
        ),
{
    header[at] = (v % 256) as u8;
    header[at + 1] = ((v / 256) % 256) as u8;
}

/// Writes the four bytes of `v` into `header` at `at`, least significant
/// first.
fn put32(header: &mut [u8; 54], at: usize, v: u32)
    requires
        at + 4 <= 54,
    ensures
        final(header)@ == old(header)@.update(at as int, le_bytes32(v as int)[0]).update(
            at + 1,
            le_bytes32(v as int)[1],
        ).update(at + 2, le_bytes32(v as int)[2]).update(at + 3, le_bytes32(v as int)[3]),
{
    header[at] = (v % 256) as u8;
    header[at + 1] = ((v / 256) % 256) as u8;
    header[at + 2] = ((v / 65536) % 256) as u8;
    header[at + 3] = ((v / 16777216) % 256) as u8;
}

/// The header of the bitmap file that holds the canvas. The file's size must
/// fit the header's 32-bit field.
pub fn create_bmp_header(bmp_canvas: &BmpCanvas) -> (header: [u8; 54])
    requires
        bmp_canvas.wf(),
        bmp_canvas.bytes().len() + HEADER_LEN <= u32::MAX,
    ensures
        header@ == header_bytes(
            bmp_canvas.spec_width(),
            bmp_canvas.spec_height(),
            bmp_canvas.bytes().len() as int,
        ),
{
    let bmp_signature: u16 = 0x4d42;
    assert(bmp_canvas.scanline_size * bmp_canvas.height == bmp_canvas.pixels@.len());
    let bmp_file_size: u32 = bmp_canvas.scanline_size * bmp_canvas.height + HEADER_LEN;
    let bmp_reserved: u32 = 0;
    let bmp_data_offset: u32 = HEADER_LEN;

    let info_header_size: u32 = 40;
    let info_header_width: u32 = bmp_canvas.width;
    let info_header_height: u32 = bmp_canvas.height;
    let info_header_planes: u16 = 1;
    let info_header_bits_per_pixel: u16 = 24;
    let info_header_compression: u32 = 0;
    let info_header_image_size: u32 = 0;
    let info_header_x_pixels_per_m: u32 = 0;
    let info_header_y_pixels_per_m: u32 = 0;
    let info_header_colors_used: u32 = 0;
    let info_header_important_colors: u32 = 0;

    let mut bmp_header = [0u8; 54];

    put16(&mut bmp_header, 0, bmp_signature);
    put32(&mut bmp_header, 2, bmp_file_size);
    put32(&mut bmp_header, 6, bmp_reserved);
    put32(&mut bmp_header, 10, bmp_data_offset);
    put32(&mut bmp_header, 14, info_header_size);
    put32(&mut bmp_header, 18, info_header_width);
    put32(&mut bmp_header, 22, info_header_height);
    put16(&mut bmp_header, 26, info_header_planes);
    put16(&mut bmp_header, 28, info_header_bits_per_pixel);
    put32(&mut bmp_header, 30, info_header_compression);
    put32(&mut bmp_header, 34, info_header_image_size);
    put32(&mut bmp_header, 38, info_header_x_pixels_per_m);
    put32(&mut bmp_header, 42, info_header_y_pixels_per_m);
    put32(&mut bmp_header, 46, info_header_colors_used);
    put32(&mut bmp_header, 50, info_header_important_colors);

    assert(bmp_header@ =~= header_bytes(
        bmp_canvas.spec_width(),
        bmp_canvas.spec_height(),
        bmp_canvas.bytes().len() as int,
    ));
    bmp_header
}

} // verus!
