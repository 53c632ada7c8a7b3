//! Decoded pictures: sample planes, block placement and conversion to RGB.
use vstd::prelude::*;

verus! {

/// `n` limited to the range of a byte.
pub open spec fn clamp_spec(n: int) -> u8 {
    if n > 255 {
        255
    } else if n < 0 {
        0
    } else {
        n as u8
    }
}

pub fn clamp(n: i32) -> (r: u8)
    ensures
        r == clamp_spec(n as int),
{
    if n > 255 {
        255
    } else if n < 0 {
        0
    } else {
        n as u8
    }
}

/// One plane of samples, stored row by row.
pub struct Plane {
    pub width: u16,
    pub height: u16,
    pub data: Vec<u8>,
}

impl Plane {
    pub open spec fn wf(&self) -> bool {
        self.data@.len() == self.width as int * self.height as int
    }

    /// A plane of `w` by `h` zero samples.
    pub fn new(w: u16, h: u16) -> (r: Plane)
        requires
            w as int * h as int <= usize::MAX,
        ensures
            r.wf(),
            r.width == w,
            r.height == h,
            forall|i: int| 0 <= i < r.data@.len() ==> r.data@[i] == 0,
    {
        let n: usize = (w as usize) * (h as usize);
        Plane { width: w, height: h, data: vec![0u8; n] }
    }
}

/// Every sample of a plane lies in `[0, 255]`, as a byte. That decoded
/// values saturate rather than wrap is stated by `clamp` and by the samples
/// that block decoding writes.
pub proof fn lemma_plane_samples_in_range(p: &Plane)
    ensures
        forall|i: int| 0 <= i < p.data@.len() ==> 0 <= #[trigger] p.data@[i] <= 255,
{
}

/// Number of 16-pixel macroblocks needed to cover `n` pixels.
pub open spec fn mb_count(n: int) -> int {
    (n + 15) / 16
}

/// Largest picture dimension: 14 bits.
pub const MAX_DIMENSION: u16 = 0x3fff;

/// A picture in 4:2:0 YCbCr: a luma plane covering whole macroblocks, and two
/// chroma planes of half its width and height.
pub struct Frame {
    pub width: u16,
    pub height: u16,
    pub y: Plane,
    pub cr: Plane,
    pub cb: Plane,
}

impl Frame {
    pub open spec fn wf(&self) -> bool {
        &&& self.width <= MAX_DIMENSION
        &&& self.height <= MAX_DIMENSION
        &&& self.y.wf()
        &&& self.cr.wf()
        &&& self.cb.wf()
        &&& self.y.width == mb_count(self.width as int) * 16
        &&& self.y.height == mb_count(self.height as int) * 16
        &&& self.cr.width == mb_count(self.width as int) * 8
        &&& self.cr.height == mb_count(self.height as int) * 8
        &&& self.cb.width == self.cr.width
        &&& self.cb.height == self.cr.height
    }

    /// A black frame for a picture of `w` by `h` pixels.
    pub fn new(w: u16, h: u16) -> (r: Frame)
        requires
            w <= MAX_DIMENSION,
            h <= MAX_DIMENSION,
        ensures
            r.wf(),
            r.width == w,
            r.height == h,
            forall|i: int| 0 <= i < r.y.data@.len() ==> r.y.data@[i] == 0,
            forall|i: int| 0 <= i < r.cb.data@.len() ==> r.cb.data@[i] == 0,
            forall|i: int| 0 <= i < r.cr.data@.len() ==> r.cr.data@[i] == 0,
    {
        let macroblock_width = (w + 15) / 16;
        let macroblock_height = (h + 15) / 16;
        assert(macroblock_width * 16 * (macroblock_height * 16) <= 0x4000 * 0x4000
            && macroblock_width * 8 * (macroblock_height * 8) <= 0x2000 * 0x2000) by (nonlinear_arith)
            requires
                macroblock_width <= 0x400,
                macroblock_height <= 0x400,
        ;
        Frame {
            width: w,
            height: h,
            y: Plane::new(macroblock_width * 16, macroblock_height * 16),
            cr: Plane::new(macroblock_width * 8, macroblock_height * 8),
            cb: Plane::new(macroblock_width * 8, macroblock_height * 8),
        }
    }
}

/// Luma contribution of a sample, in fixed point with 16 fractional bits.
pub open spec fn luma(yv: int) -> int {
    ((yv - 16) * 76309) / 65536
}

pub open spec fn red_offset(cr: int) -> int {
    ((cr - 128) * 104597) / 65536
}

pub open spec fn green_offset(cb: int, cr: int) -> int {
    ((cb - 128) * 25674 + (cr - 128) * 53278) / 65536
}

pub open spec fn blue_offset(cb: int) -> int {
    ((cb - 128) * 132201) / 65536
}

/// Component `c` (0 red, 1 green, 2 blue) of the colour of luma `yv` with chroma `cb`, `cr`.
pub open spec fn rgb_component(yv: int, cb: int, cr: int, c: int) -> u8 {
    if c == 0 {
        clamp_spec(luma(yv) + red_offset(cr))
    } else if c == 1 {
        clamp_spec(luma(yv) - green_offset(cb, cr))
    } else {
        clamp_spec(luma(yv) + blue_offset(cb))
    }
}

/// Index of component `c` of pixel `(x, y)` in a packed RGB buffer `w` pixels wide.
pub open spec fn pixel_index(w: int, x: int, y: int, c: int) -> int {
    (y * w + x) * 3 + c
}

pub proof fn lemma_pixel_index_bound(w: int, h: int, x: int, y: int, c: int)
    requires
        0 <= x < w,
        0 <= y < h,
        0 <= c < 3,
    ensures
        0 <= pixel_index(w, x, y, c) < w * h * 3,
{
    assert(0 <= y * w + x < w * h) by (nonlinear_arith)
        requires
            0 <= x < w,
            0 <= y < h,
    ;
}

pub proof fn lemma_pixel_index_distinct(w: int, x1: int, y1: int, c1: int, x2: int, y2: int, c2: int)
    requires
        0 <= x1 < w,
        0 <= x2 < w,
        0 <= y1,
        0 <= y2,
        0 <= c1 < 3,
        0 <= c2 < 3,
        x1 != x2 || y1 != y2 || c1 != c2,
    ensures
        pixel_index(w, x1, y1, c1) != pixel_index(w, x2, y2, c2),
{
    if y1 * w + x1 == y2 * w + x2 {
        if y1 < y2 {
            assert(y1 * w + w <= y2 * w) by (nonlinear_arith)
                requires
                    y1 < y2,
                    0 <= w,
            ;
        } else if y2 < y1 {
            assert(y2 * w + w <= y1 * w) by (nonlinear_arith)
                requires
                    y2 < y1,
                    0 <= w,
            ;
        }
    }
}

/// The packed RGB image of a picture `w` by `h` whose luma plane has rows
/// `yw` long and whose chroma planes have rows `cw` long: byte `k` is
/// component `k % 3` of pixel `k / 3`, counted row by row. Pixels outside the
/// whole 2x2 cells stay 0.
pub open spec fn rgb_image(w: int, h: int, yw: int, cw: int, y: Seq<u8>, cb: Seq<u8>, cr: Seq<u8>) -> Seq<u8> {
    Seq::new((w * h * 3) as nat, |k: int| {
        let x = (k / 3) % w;
        let yy = (k / 3) / w;
        let c = k % 3;
        if x < (w / 2) * 2 && yy < (h / 2) * 2 {
            rgb_component(y[yy * yw + x] as int, cb[(yy / 2) * cw + x / 2] as int, cr[(yy / 2) * cw + x / 2] as int, c)
        } else {
            0u8
        }
    })
}

proof fn lemma_pixel_of(k: int, w: int, h: int)
    requires
        1 <= w,
        0 <= k < w * h * 3,
    ensures
        0 <= (k / 3) % w < w,
        0 <= (k / 3) / w < h,
        0 <= k % 3 < 3,
        k == pixel_index(w, (k / 3) % w, (k / 3) / w, k % 3),
{
    vstd::arithmetic::div_mod::lemma_fundamental_div_mod(k, 3);
    vstd::arithmetic::div_mod::lemma_fundamental_div_mod(k / 3, w);
    let p = k / 3;
    assert(p < w * h);
    assert(0 <= p / w < h) by (nonlinear_arith)
        requires
            p == w * (p / w) + p % w,
            0 <= p % w < w,
            0 <= p < w * h,
            1 <= w,
    ;
    assert(p == (p / w) * w + p % w) by (nonlinear_arith)
        requires
            p == w * (p / w) + p % w,
    ;
}

/// Floor division by 65536.
#[inline]
fn shr16(x: i32) -> (r: i32)
    ensures
        r == x / 65536,
{
    let r = x >> 16u32;
    assert(r * 65536 <= x && x < r * 65536 + 65536) by (bit_vector)
        requires
            r == x >> 16u32,
    ;
    r
}

impl Frame {
    /// Luma sample at `(x, y)`.
    pub open spec fn y_at(&self, x: int, y: int) -> int {
        self.y.data@[y * self.y.width + x] as int
    }

    /// Cb sample of the chroma cell holding pixel `(x, y)`.
    pub open spec fn cb_at(&self, x: int, y: int) -> int {
        self.cb.data@[(y / 2) * self.cb.width + x / 2] as int
    }

    /// Cr sample of the chroma cell holding pixel `(x, y)`.
    pub open spec fn cr_at(&self, x: int, y: int) -> int {
        self.cr.data@[(y / 2) * self.cr.width + x / 2] as int
    }

    /// Component `c` of pixel `(x, y)` after conversion.
    pub open spec fn rgb_at(&self, x: int, y: int, c: int) -> u8 {
        rgb_component(self.y_at(x, y), self.cb_at(x, y), self.cr_at(x, y), c)
    }

    /// Pixels converted: those of whole 2x2 cells, which are all of them
    /// unless a dimension is odd.
    pub open spec fn converted_width(&self) -> int {
        (self.width / 2) * 2
    }

    pub open spec fn converted_height(&self) -> int {
        (self.height / 2) * 2
    }

    /// Writes the colour of pixel `(px, py)`, found at luma sample
    /// `y_index + y_offset` and given the chroma offsets `r`, `g`, `b` of its
    /// cell, at `d_index + dest_offset` of `dest`.
    fn put_pixel(&self, dest: &mut Vec<u8>, d_index: usize, y_index: usize, r: i32, g: i32, b: i32,
        y_offset: usize, dest_offset: usize, Ghost(px): Ghost<int>, Ghost(py): Ghost<int>)
        requires
            self.wf(),
            0 <= px < self.width,
            0 <= py < self.height,
            old(dest)@.len() == self.width as int * self.height as int * 3,
            d_index + dest_offset == pixel_index(self.width as int, px, py, 0),
            y_index + y_offset == py * self.y.width + px,
            r == red_offset(self.cr_at(px, py)),
            g == green_offset(self.cb_at(px, py), self.cr_at(px, py)),
            b == blue_offset(self.cb_at(px, py)),
        ensures
            final(dest)@.len() == old(dest)@.len(),
            forall|c: int| 0 <= c < 3 ==> #[trigger] final(dest)@[pixel_index(self.width as int, px, py, c)] == self.rgb_at(px, py, c),
            forall|x: int, y: int, c: int| 0 <= x < self.width && 0 <= y < self.height && 0 <= c < 3 && (x != px || y != py)
                ==> #[trigger] final(dest)@[pixel_index(self.width as int, x, y, c)] == old(dest)@[pixel_index(self.width as int, x, y, c)],
    {
        let ghost w = self.width as int;
        proof {
            lemma_pixel_index_bound(w, self.height as int, px, py, 2);
            let yh = self.y.height as int;
            let yw = self.y.width as int;
            assert(yw <= 0x4000 && yh <= 0x4000);
            let hi = self.height as int;
            assert(w * hi * 3 <= 0x4000 * 0x4000 * 3) by (nonlinear_arith)
                requires
                    0 <= w <= 0x3fff,
                    0 <= hi <= 0x3fff,
            ;
            assert(py * yw + px < yw * yh) by (nonlinear_arith)
                requires
                    0 <= px < yw,
                    0 <= py < yh,
            ;
            assert(yw * yh <= 0x4000 * 0x4000) by (nonlinear_arith)
                requires
                    0 <= yw <= 0x4000,
                    0 <= yh <= 0x4000,
            ;
        }
        let idx: usize = y_index + y_offset;
        let y: i32 = shr16((self.y.data[idx] as i32 - 16) * 76309);
        let d: usize = d_index + dest_offset;
        let ghost before = dest@;
        dest.set(d, clamp(y + r));
        dest.set(d + 1, clamp(y - g));
        dest.set(d + 2, clamp(y + b));
        proof {
            assert forall|x: int, y: int, c: int| 0 <= x < self.width && 0 <= y < self.height && 0 <= c < 3 && (x != px || y != py)
                implies #[trigger] dest@[pixel_index(w, x, y, c)] == before[pixel_index(w, x, y, c)] by {
                lemma_pixel_index_bound(w, self.height as int, x, y, c);
                lemma_pixel_index_distinct(w, x, y, c, px, py, 0);
                lemma_pixel_index_distinct(w, x, y, c, px, py, 1);
                lemma_pixel_index_distinct(w, x, y, c, px, py, 2);
            }
        }
    }

    /// Converts to packed RGB, three bytes per pixel, rows top to bottom.
    /// Each 2x2 cell of luma samples shares the chroma sample of its cell.
    pub fn to_rgb(&self) -> (dest: Vec<u8>)
        requires
            self.wf(),
        ensures
            dest@.len() == self.width as int * self.height as int * 3,
            forall|x: int, y: int, c: int|
                0 <= x < self.converted_width() && 0 <= y < self.converted_height() && 0 <= c < 3
                ==> #[trigger] dest@[pixel_index(self.width as int, x, y, c)] == self.rgb_at(x, y, c),
            forall|x: int, y: int, c: int|
                0 <= x < self.width && 0 <= y < self.height && 0 <= c < 3
                && (x >= self.converted_width() || y >= self.converted_height())
                ==> #[trigger] dest@[pixel_index(self.width as int, x, y, c)] == 0,
            dest@ == rgb_image(self.width as int, self.height as int, self.y.width as int, self.cb.width as int,
                self.y.data@, self.cb.data@, self.cr.data@),
    {
        let bytes_per_pixel: usize = 3;
        let w: usize = self.width as usize;
        let h: usize = self.height as usize;
        let ghost wi = w as int;
        assert(w * h * 3 <= 0x4000 * 0x4000 * 3) by (nonlinear_arith)
            requires
                w <= 0x3fff,
                h <= 0x3fff,
        ;
        let mut dest: Vec<u8> = vec![0u8; w * h * bytes_per_pixel];
        let stride: usize = w * bytes_per_pixel;
        let cols: usize = w / 2;
        let rows: usize = h / 2;
        let yw: usize = self.y.width as usize;
        let cw: usize = self.cb.width as usize;
        assert forall|x: int, y: int, c: int|
            0 <= x < w && 0 <= y < h && 0 <= c < 3 implies #[trigger] dest@[pixel_index(wi, x, y, c)] == 0 by {
            lemma_pixel_index_bound(wi, h as int, x, y, c);
        }
        let mut row: usize = 0;
        while row < rows
            invariant
                self.wf(),
                w == self.width,
                h == self.height,
                wi == w,
                stride == w * 3,
                bytes_per_pixel == 3,
                cols == w / 2,
                rows == h / 2,
                yw == self.y.width,
                cw == self.cb.width,
                yw <= 0x4000,
                cw <= 0x2000,
                stride <= 0xc000,
                w * h * 3 <= 0x4000 * 0x4000 * 3,
                row <= rows,
                dest@.len() == w * h * 3,
                forall|x: int, y: int, c: int|
                    0 <= x < 2 * cols && 0 <= y < 2 * row && 0 <= c < 3
                    ==> #[trigger] dest@[pixel_index(wi, x, y, c)] == self.rgb_at(x, y, c),
                forall|x: int, y: int, c: int|
                    0 <= x < w && 0 <= y < h && 0 <= c < 3 && (x >= 2 * cols || y >= 2 * row)
                    ==> #[trigger] dest@[pixel_index(wi, x, y, c)] == 0,
            decreases rows - row,
        {
            proof {
                assert(row * cw <= 0x2000 * 0x2000 && row * 2 * yw <= 0x4000 * 0x4000
                    && row * 2 * stride <= 0x4000 * 0x4000 * 3) by (nonlinear_arith)
                    requires
                        row < 0x2000,
                        cw <= 0x2000,
                        yw <= 0x4000,
                        stride <= 0x4000 * 3,
                ;
                assert(row * 2 * stride == pixel_index(wi, 0, 2 * row as int, 0)) by (nonlinear_arith)
                    requires
                        stride == wi * 3,
                ;
            }
            let mut c_index: usize = row * cw;
            let mut y_index: usize = row * 2 * yw;
            let mut d_index: usize = row * 2 * stride;
            let mut col: usize = 0;
            while col < cols
                invariant
                    self.wf(),
                    w == self.width,
                    h == self.height,
                    wi == w,
                    stride == w * 3,
                    bytes_per_pixel == 3,
                    cols == w / 2,
                    rows == h / 2,
                    yw == self.y.width,
                    cw == self.cb.width,
                    yw <= 0x4000,
                    cw <= 0x2000,
                    stride <= 0xc000,
                    w * h * 3 <= 0x4000 * 0x4000 * 3,
                    row < rows,
                    col <= cols,
                    c_index == row * cw + col,
                    y_index == row * 2 * yw + 2 * col,
                    d_index == pixel_index(wi, 2 * col as int, 2 * row as int, 0),
                    dest@.len() == w * h * 3,
                    forall|x: int, y: int, c: int|
                        0 <= x < 2 * cols && 0 <= c < 3 && (0 <= y < 2 * row || ((y == 2 * row || y == 2 * row + 1) && 0 <= x < 2 * col))
                        ==> #[trigger] dest@[pixel_index(wi, x, y, c)] == self.rgb_at(x, y, c),
                    forall|x: int, y: int, c: int|
                        0 <= x < w && 0 <= y < h && 0 <= c < 3 && (x >= 2 * cols || y >= 2 * row + 2
                            || ((y == 2 * row || y == 2 * row + 1) && x >= 2 * col))
                        ==> #[trigger] dest@[pixel_index(wi, x, y, c)] == 0,
                decreases cols - col,
            {
                let ghost x0 = 2 * col as int;
                let ghost y0 = 2 * row as int;
                proof {
                    let ch = self.cb.height as int;
                    assert(row * cw + col < cw * ch) by (nonlinear_arith)
                        requires
                            row < rows,
                            rows == h / 2,
                            col < cols,
                            cols == w / 2,
                            cw == mb_count(w as int) * 8,
                            ch == mb_count(h as int) * 8,
                    ;
                    assert(self.cb.data@.len() == cw * ch);
                    assert(cw * ch <= 0x2000 * 0x2000) by (nonlinear_arith)
                        requires
                            cw <= 0x2000,
                            ch <= 0x2000,
                    ;
                    assert(pixel_index(wi, x0 + 1, y0, 0) == d_index + 3) by (nonlinear_arith)
                        requires
                            d_index == pixel_index(wi, x0, y0, 0),
                    ;
                    assert(pixel_index(wi, x0 + 2, y0, 0) == d_index + 6) by (nonlinear_arith)
                        requires
                            d_index == pixel_index(wi, x0, y0, 0),
                    ;
                    assert(pixel_index(wi, x0 + 1, y0 + 1, 0) == d_index + stride + 3) by (nonlinear_arith)
                        requires
                            d_index == pixel_index(wi, x0, y0, 0),
                            stride == wi * 3,
                    ;
                    assert(pixel_index(wi, x0 + 1, y0, 2) == d_index + 5) by (nonlinear_arith)
                        requires
                            d_index == pixel_index(wi, x0, y0, 0),
                    ;
                    lemma_pixel_index_bound(wi, h as int, x0 + 1, y0, 2);
                    assert(y_index == y0 * yw + x0);
                    assert(y_index + yw == (y0 + 1) * yw + x0) by (nonlinear_arith)
                        requires
                            y_index == y0 * yw + x0,
                    ;
                    assert(d_index + stride == pixel_index(wi, x0, y0 + 1, 0)) by (nonlinear_arith)
                        requires
                            d_index == pixel_index(wi, x0, y0, 0),
                            stride == wi * 3,
                    ;
                    lemma_pixel_index_bound(wi, h as int, x0 + 1, y0 + 1, 2);
                    assert(y_index + yw + 1 < 0x4000 * 0x4000) by (nonlinear_arith)
                        requires
                            y_index + yw == (y0 + 1) * yw + x0,
                            y0 + 1 < 0x4000,
                            x0 + 1 < yw,
                            yw <= 0x4000,
                    ;
                    assert(c_index == (y0 / 2) * cw + x0 / 2);
                    assert(c_index == (y0 / 2) * cw + (x0 + 1) / 2);
                    assert(c_index == ((y0 + 1) / 2) * cw + x0 / 2);
                    assert(c_index == ((y0 + 1) / 2) * cw + (x0 + 1) / 2);
                }
                let cr: i32 = self.cr.data[c_index] as i32 - 128;
                let cb: i32 = self.cb.data[c_index] as i32 - 128;
                let r: i32 = shr16(cr * 104597);
                let g: i32 = shr16(cb * 25674 + cr * 53278);
                let b: i32 = shr16(cb * 132201);
                let ghost d0 = dest@;
                self.put_pixel(&mut dest, d_index, y_index, r, g, b, 0, 0, Ghost(x0), Ghost(y0));
                let ghost d1 = dest@;
                self.put_pixel(&mut dest, d_index, y_index, r, g, b, 1, bytes_per_pixel, Ghost(x0 + 1), Ghost(y0));
                let ghost d2 = dest@;
                self.put_pixel(&mut dest, d_index, y_index, r, g, b, yw, stride, Ghost(x0), Ghost(y0 + 1));
                let ghost d3 = dest@;
                self.put_pixel(&mut dest, d_index, y_index, r, g, b, yw + 1, stride + bytes_per_pixel, Ghost(x0 + 1), Ghost(y0 + 1));
                proof {
                    assert forall|x: int, y: int, c: int|
                        0 <= x < 2 * cols && 0 <= c < 3 && (0 <= y < 2 * row || ((y == 2 * row || y == 2 * row + 1) && 0 <= x < 2 * col + 2))
                        implies #[trigger] dest@[pixel_index(wi, x, y, c)] == self.rgb_at(x, y, c) by {
                        if x == x0 && y == y0 {
                            assert(d1[pixel_index(wi, x, y, c)] == self.rgb_at(x, y, c));
                        } else if x == x0 + 1 && y == y0 {
                            assert(d2[pixel_index(wi, x, y, c)] == self.rgb_at(x, y, c));
                        } else if x == x0 && y == y0 + 1 {
                            assert(d3[pixel_index(wi, x, y, c)] == self.rgb_at(x, y, c));
                        } else if x == x0 + 1 && y == y0 + 1 {
                        } else {
                            assert(d0[pixel_index(wi, x, y, c)] == self.rgb_at(x, y, c));
                        }
                    }
                    assert forall|x: int, y: int, c: int|
                        0 <= x < w && 0 <= y < h && 0 <= c < 3 && (x >= 2 * cols || y >= 2 * row + 2
                            || ((y == 2 * row || y == 2 * row + 1) && x >= 2 * col + 2))
                        implies #[trigger] dest@[pixel_index(wi, x, y, c)] == 0 by {
                        assert(d0[pixel_index(wi, x, y, c)] == 0);
                    }
                }
                c_index = c_index + 1;
                y_index = y_index + 2;
                d_index = d_index + 2 * bytes_per_pixel;
                col = col + 1;
            }
            row = row + 1;
        }
        proof {
            let img = rgb_image(w as int, h as int, yw as int, cw as int, self.y.data@, self.cb.data@, self.cr.data@);
            assert forall|k: int| 0 <= k < dest@.len() implies dest@[k] == img[k] by {
                lemma_pixel_of(k, w as int, h as int);
                let x = (k / 3) % (w as int);
                let yy = (k / 3) / (w as int);
                let c = k % 3;
                assert(dest@[pixel_index(wi, x, yy, c)] == dest@[k]);
            }
            assert(dest@ =~= img);
        }
        dest
    }
}

} // verus!
