//! Encoders for the two frame sinks: BMP (bottom-up, padded rows) and ASCII PPM.
use vstd::prelude::*;

verus! {

/// `v` as two little-endian bytes.
pub open spec fn le16(v: int) -> Seq<u8> {
    seq![(v % 256) as u8, ((v / 256) % 256) as u8]
}

/// `v` as four little-endian bytes.
pub open spec fn le32(v: int) -> Seq<u8> {
    le16(v % 65536) + le16(v / 65536)
}

fn push_le16(out: &mut Vec<u8>, v: u16)
    ensures
        final(out)@ == old(out)@ + le16(v as int),
{
    out.push((v % 256) as u8);
    out.push((v / 256) as u8);
    assert(final(out)@ =~= old(out)@ + le16(v as int));
}

fn push_le32(out: &mut Vec<u8>, v: u32)
    ensures
        final(out)@ == old(out)@ + le32(v as int),
{
    push_le16(out, (v % 65536) as u16);
    push_le16(out, (v / 65536) as u16);
    assert(final(out)@ =~= old(out)@ + le32(v as int));
}

/// The 14-byte BMP file header: `BM`, the file size, four zero bytes and the
/// offset of the pixel data.
pub open spec fn file_header_bytes(file_size: int, offset: int) -> Seq<u8> {
    seq![0x42u8, 0x4du8] + le32(file_size) + seq![0u8, 0u8, 0u8, 0u8] + le32(offset)
}

/// The 12-byte BMP core header.
pub open spec fn core_header_bytes(size: int, width: int, height: int, nr_planes: int, bits_per_pixel: int) -> Seq<u8> {
    le32(size) + le16(width) + le16(height) + le16(nr_planes) + le16(bits_per_pixel)
}

pub struct BmpFileHeader {
    pub file_size: u32,
    pub offset: u32,
}

impl BmpFileHeader {
    pub fn serialize(&self) -> (r: Vec<u8>)
        ensures
            r@ == file_header_bytes(self.file_size as int, self.offset as int),
            r@.len() == 14,
    {
        let mut ret: Vec<u8> = Vec::new();
        ret.push(0x42);
        ret.push(0x4d);
        push_le32(&mut ret, self.file_size);
        ret.push(0);
        ret.push(0);
        ret.push(0);
        ret.push(0);
        push_le32(&mut ret, self.offset);
        assert(ret@ =~= file_header_bytes(self.file_size as int, self.offset as int));
        ret
    }
}

pub struct BmpCoreHeader {
    pub size: u32,
    pub width: u16,
    pub height: u16,
    pub nr_planes: u16,
    pub bits_per_pixel: u16,
}

impl BmpCoreHeader {
    pub fn serialize(&self) -> (r: Vec<u8>)
        ensures
            r@ == core_header_bytes(self.size as int, self.width as int, self.height as int,
                self.nr_planes as int, self.bits_per_pixel as int),
            r@.len() == 12,
    {
        let mut ret: Vec<u8> = Vec::new();
        push_le32(&mut ret, self.size);
        push_le16(&mut ret, self.width);
        push_le16(&mut ret, self.height);
        push_le16(&mut ret, self.nr_planes);
        push_le16(&mut ret, self.bits_per_pixel);
        assert(ret@ =~= core_header_bytes(self.size as int, self.width as int, self.height as int,
            self.nr_planes as int, self.bits_per_pixel as int));
        ret
    }
}

/// Zero bytes that pad a row of `width` RGB pixels to a multiple of four bytes.
pub open spec fn row_padding(width: int) -> int {
    if (width * 3) % 4 == 0 { 0 } else { 4 - (width * 3) % 4 }
}

/// Padding after each row of a picture `width` pixels wide.
pub fn row_padding_bytes(width: u16) -> (r: u8)
    ensures
        r == row_padding(width as int),
{
    let rem = (width as u32 * 3) % 4;
    if rem == 0 {
        0
    } else {
        (4 - rem) as u8
    }
}

/// Row `r` of packed RGB `pixels`, followed by its padding.
pub open spec fn bmp_row(pixels: Seq<u8>, width: int, r: int) -> Seq<u8> {
    pixels.subrange(r * width * 3, (r + 1) * width * 3) + Seq::new(row_padding(width) as nat, |i: int| 0u8)
}

/// Rows `n - 1` down to `0`: the bottom-up order of BMP pixel data.
pub open spec fn bmp_rows(pixels: Seq<u8>, width: int, n: int) -> Seq<u8>
    decreases n,
{
    if n <= 0 {
        seq![]
    } else {
        bmp_row(pixels, width, n - 1) + bmp_rows(pixels, width, n - 1)
    }
}

/// The whole file for a picture of `width` by `height` pixels.
pub open spec fn bmp_bytes(width: int, height: int, pixels: Seq<u8>) -> Seq<u8> {
    file_header_bytes(26 + (width * 3 + row_padding(width)) * height, 26)
        + core_header_bytes(12, width, height, 1, 24)
        + bmp_rows(pixels, width, height)
}

/// A BMP sink for packed RGB pictures.
pub struct BmpImage {}

impl BmpImage {
    /// Appends the BMP file of the `width` by `height` picture `pixels`
    /// (packed RGB, rows top to bottom) to `writer`.
    pub fn write(self, width: i32, height: i32, pixels: &Vec<u8>, writer: &mut Vec<u8>)
        requires
            0 <= width <= 0xffff,
            0 <= height <= 0xffff,
            width * height * 3 <= pixels@.len(),
            26 + (width * 3 + row_padding(width as int)) * height <= u32::MAX,
        ensures
            final(writer)@ == old(writer)@ + bmp_bytes(width as int, height as int, pixels@),
    {
        let bytes_per_pixel: usize = 3;
        let w: usize = width as usize;
        let h: usize = height as usize;
        let padding_bytes: usize = if (w * bytes_per_pixel) % 4 == 0 { 0 } else { 4 - (w * bytes_per_pixel) % 4 };
        assert((w * 3 + padding_bytes) * h <= u32::MAX);
        let file_size: u32 = (26 + (w * bytes_per_pixel + padding_bytes) * h) as u32;
        let file_header = BmpFileHeader { file_size, offset: 26 };
        let fh = file_header.serialize();
        let core_header = BmpCoreHeader { size: 12, width: w as u16, height: h as u16, nr_planes: 1, bits_per_pixel: 24 };
        let ch = core_header.serialize();
        let ghost start = writer@;
        append(writer, &fh);
        append(writer, &ch);
        let ghost headers = fh@ + ch@;
        let ghost hl: int = start.len() as int + 26;
        assert(writer@ =~= start + headers);
        let stride: usize = w * bytes_per_pixel;
        let plen: usize = pixels.len();
        let mut nr_row: usize = h;
        while nr_row > 0
            invariant
                nr_row <= h,
                stride == w * 3,
                w == width,
                h == height,
                w * h * 3 <= pixels@.len(),
                plen == pixels@.len(),
                padding_bytes == row_padding(w as int),
                hl == start.len() as int + 26,
                bmp_rows(pixels@, w as int, h as int) == writer@.subrange(hl, writer@.len() as int)
                    + bmp_rows(pixels@, w as int, nr_row as int),
                writer@.len() >= hl,
                writer@.subrange(0, hl) == start + headers,
            decreases nr_row,
        {
            nr_row = nr_row - 1;
            assert(nr_row * stride + stride <= w * h * 3) by (nonlinear_arith)
                requires
                    nr_row < h,
                    stride == w * 3,
            ;
            let start_idx: usize = nr_row * stride;
            let ghost before = writer@;
            let mut k: usize = 0;
            while k < stride
                invariant
                    k <= stride,
                    start_idx + stride <= pixels@.len(),
                    plen == pixels@.len(),
                    writer@ == before + pixels@.subrange(start_idx as int, start_idx + k),
                decreases stride - k,
            {
                writer.push(pixels[start_idx + k]);
                assert(writer@ =~= before + pixels@.subrange(start_idx as int, start_idx + k + 1));
                k = k + 1;
            }
            let mut p: usize = 0;
            while p < padding_bytes
                invariant
                    p <= padding_bytes,
                    writer@ == before + pixels@.subrange(start_idx as int, start_idx + stride)
                        + Seq::new(p as nat, |i: int| 0u8),
                decreases padding_bytes - p,
            {
                writer.push(0);
                assert(writer@ =~= before + pixels@.subrange(start_idx as int, start_idx + stride)
                    + Seq::new((p + 1) as nat, |i: int| 0u8));
                p = p + 1;
            }
            proof {
                assert(start_idx == nr_row * w * 3 && start_idx + stride == (nr_row + 1) * w * 3) by (nonlinear_arith)
                    requires
                        start_idx == nr_row * stride,
                        stride == w * 3,
                ;
                let row = bmp_row(pixels@, w as int, nr_row as int);
                assert(writer@ =~= before + row);
                assert(writer@.subrange(0, hl) =~= before.subrange(0, hl));
                assert(writer@.subrange(hl, writer@.len() as int)
                    =~= before.subrange(hl, before.len() as int) + row);
                assert(bmp_rows(pixels@, w as int, nr_row + 1) == row + bmp_rows(pixels@, w as int, nr_row as int));
                assert(bmp_rows(pixels@, w as int, h as int) =~= writer@.subrange(hl, writer@.len() as int)
                    + bmp_rows(pixels@, w as int, nr_row as int));
            }
        }
        proof {
            assert(bmp_rows(pixels@, w as int, 0) =~= Seq::<u8>::empty());
            assert(writer@ =~= writer@.subrange(0, hl) + writer@.subrange(hl, writer@.len() as int));
            assert(writer@ =~= old(writer)@ + bmp_bytes(width as int, height as int, pixels@));
        }
    }
}

/// Appends all of `src` to `dst`.
fn append(dst: &mut Vec<u8>, src: &Vec<u8>)
    ensures
        final(dst)@ == old(dst)@ + src@,
{
    let mut k: usize = 0;
    while k < src.len()
        invariant
            k <= src@.len(),
            dst@ == old(dst)@ + src@.subrange(0, k as int),
        decreases src@.len() - k,
    {
        dst.push(src[k]);
        assert(dst@ =~= old(dst)@ + src@.subrange(0, k + 1));
        k = k + 1;
    }
    assert(src@.subrange(0, src@.len() as int) =~= src@);
}

} // verus!
