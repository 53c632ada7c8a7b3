//! The video-layer decoder: slices, macroblocks and intra blocks.
use vstd::prelude::*;

use crate::bits::{bit_at, bits_value, BitReader};
use crate::headers::{
    code_at, has_prefix, hsize_of, is_slice_code, is_slice_start_code, is_start_code, is_video_layer_code, vsize_of,
    PictureHeader, SequenceHeader, FRAME_TYPE_I, GROUP_OF_PICTURES_START_VALUE, PICTURE_START_VALUE,
    SEQUENCE_HEADER_START_VALUE, START_EXTENSION, START_USER_DATA,
};
use crate::error::MpegError;
use crate::frame::{clamp, clamp_spec, mb_count, rgb_image, Frame, Plane, MAX_DIMENSION};
use crate::idct::{as_ints, idct, plm_video_idct, IDCT_INPUT_LIMIT};
use crate::vlc::{
    address_increment, decode_dc_diff, parse_address_increment, parse_dct_dc_size,
    parse_macroblock_type, read_coefficient, Coefficient, VIDEO_DCT_SIZE_CHROMINANCE,
    VIDEO_DCT_SIZE_LUMINANCE, VIDEO_INTRA_QUANT_MATRIX, VIDEO_PREMULTIPLIER_MATRIX, VIDEO_ZIG_ZAG,
};

verus! {

/// Largest magnitude of a reconstructed DC value; anything beyond is malformed.
pub const DC_LIMIT: i32 = 0x7fff;

/// Sign of `n`: -1, 0 or 1.
pub open spec fn sign(n: int) -> int {
    if n > 0 {
        1
    } else if n < 0 {
        -1
    } else {
        0
    }
}

/// Inverse quantization of an intra AC level: `(2 * level * scale * weight) >> 4`,
/// made odd by moving an even result one step towards zero, then saturated
/// to `[-2048, 2047]`.
pub open spec fn dequantize_spec(level: int, scale: int, weight: int) -> int {
    let l = (2 * level * scale * weight) / 16;
    let odd = if l % 2 == 0 { l - sign(l) } else { l };
    if odd > 2047 {
        2047
    } else if odd < -2048 {
        -2048
    } else {
        odd
    }
}

/// Floor division by 16.
#[inline]
fn shr4(x: i32) -> (r: i32)
    ensures
        r == x / 16,
{
    let r = x >> 4u32;
    assert(r * 16 <= x && x < r * 16 + 16) by (bit_vector)
        requires
            r == x >> 4u32,
    ;
    r
}

pub fn dequantize(level: i32, quantizer_scale: u8, de_zig_zagged: usize) -> (r: i32)
    requires
        -256 <= level <= 256,
        quantizer_scale <= 31,
        de_zig_zagged < 64,
    ensures
        r == dequantize_spec(level as int, quantizer_scale as int, VIDEO_INTRA_QUANT_MATRIX[de_zig_zagged as int] as int),
        -2048 <= r <= 2047,
{
    let weight: i32 = VIDEO_INTRA_QUANT_MATRIX[de_zig_zagged] as i32;
    assert(-256 * 2 * 31 <= level * 2 * quantizer_scale <= 256 * 2 * 31) by (nonlinear_arith)
        requires
            -256 <= level <= 256,
            0 <= quantizer_scale <= 31,
    ;
    assert(-256 * 2 * 31 * 255 <= level * 2 * quantizer_scale * weight <= 256 * 2 * 31 * 255) by (nonlinear_arith)
        requires
            -256 <= level <= 256,
            0 <= quantizer_scale <= 31,
            0 <= weight <= 255,
    ;
    let mut l: i32 = shr4(level * 2 * (quantizer_scale as i32) * weight);
    if l % 2 == 0 {
        if l > 0 {
            l = l - 1;
        } else if l < 0 {
            l = l + 1;
        }
    }
    if l > 2047 {
        2047
    } else if l < -2048 {
        -2048
    } else {
        l
    }
}

/// The DC predictor slot of block `i`: 0 for luma, 1 for Cb, 2 for Cr.
pub open spec fn plane_index(i: int) -> int {
    if i < 4 { 0 } else { i - 3 }
}

/// The DC differential of a block at `pos`: its size from the luminance or
/// chrominance tree (at most 8), then that many bits. Yields the differential
/// and the position after it.
pub open spec fn dc_term(data: Seq<u8>, pos: int, luminance: bool) -> Result<(int, int), MpegError> {
    let table = if luminance { VIDEO_DCT_SIZE_LUMINANCE@ } else { VIDEO_DCT_SIZE_CHROMINANCE@ };
    match crate::vlc::huffman_decode(table, 0, data, pos) {
        Err(e) => Err(e),
        Ok((v, p)) => if v < 0 || v > 8 {
            Err(MpegError::Format)
        } else if v == 0 {
            Ok((0, p))
        } else if p + v > 8 * data.len() {
            Err(MpegError::UnexpectedEof)
        } else {
            Ok((crate::vlc::dc_diff(bits_value(data, p, v as nat) as int, v as nat), p + v))
        },
    }
}

/// A block holding only the DC value `dc`, scaled by 256.
pub open spec fn dc_block(dc: int) -> Seq<int> {
    Seq::new(64, |k: int| if k == 0 { dc * 256 } else { 0 })
}

/// The AC coefficients of an intra block read from `pos` into `b`, from
/// coefficient `n` in zig-zag order on: each code advances by its run, its
/// level is dequantized with scale `qs` and premultiplied at the de-zig-zagged
/// position. Yields the block, the index after the last coefficient, and the
/// position after the end-of-block code.
pub open spec fn ac_coefficients(data: Seq<u8>, pos: int, n: int, b: Seq<int>, qs: int) -> Result<(Seq<int>, int, int), MpegError>
    decreases 64 - n,
{
    if n < 1 || n > 64 {
        Err(MpegError::Format)
    } else {
        match crate::vlc::dct_coefficient(data, pos) {
            Err(e) => Err(e),
            Ok((Coefficient::EndOfBlock, p)) => Ok((b, n, p)),
            Ok((Coefficient::Level { run, level }, p)) => {
                let m = n + run;
                if m >= 64 {
                    Err(MpegError::Format)
                } else {
                    let dz = VIDEO_ZIG_ZAG[m] as int;
                    let v = dequantize_spec(level as int, qs, VIDEO_INTRA_QUANT_MATRIX[dz] as int) * VIDEO_PREMULTIPLIER_MATRIX[dz];
                    ac_coefficients(data, p, m + 1, b.update(dz, v), qs)
                }
            },
        }
    }
}

/// The samples of a decoded block: a flat block of its rounded DC value where
/// it has no AC coefficient, else the clamped inverse transform.
pub open spec fn block_samples(b: Seq<int>, n: int) -> Seq<u8> {
    if n == 1 {
        Seq::new(64, |k: int| clamp_spec((b[0] + 128) / 256))
    } else {
        Seq::new(64, |k: int| clamp_spec(idct(b)[k]))
    }
}

/// The plane that block `i` of a macroblock belongs to.
pub open spec fn plane_of(f: Frame, i: int) -> Plane {
    if i < 4 {
        f.y
    } else if i == 4 {
        f.cb
    } else {
        f.cr
    }
}

/// Block `i` of the macroblock at `(row, col)` of `f1` holds `samples`, and
/// nothing else differs from `f0`.
pub open spec fn block_written(f0: Frame, f1: Frame, i: int, row: int, col: int, samples: Seq<u8>) -> bool {
    let w = plane_of(f0, i).width as int;
    let px = if i < 4 { col * 16 + (i % 2) * 8 } else { col * 8 };
    let py = if i < 4 { row * 16 + (i / 2) * 8 } else { row * 8 };
    let d0 = plane_of(f0, i).data@;
    let d1 = plane_of(f1, i).data@;
    &&& forall|r: int, c: int| 0 <= r < 8 && 0 <= c < 8 ==> #[trigger] d1[py * w + px + r * w + c] == samples[r * 8 + c]
    &&& d1.len() == d0.len()
    &&& forall|k: int| 0 <= k < d0.len() && !in_block(k, py * w + px, w) ==> d1[k] == d0[k]
    &&& f1.width == f0.width
    &&& f1.height == f0.height
    &&& plane_of(f1, i).width == plane_of(f0, i).width
    &&& plane_of(f1, i).height == plane_of(f0, i).height
    &&& (i != 0 && i != 1 && i != 2 && i != 3 ==> f1.y == f0.y)
    &&& (i != 4 ==> f1.cb == f0.cb)
    &&& (i != 5 ==> f1.cr == f0.cr)
}

/// What decoding a picture changes, as mathematical values: the address of
/// the current macroblock, the quantizer scale, the three DC predictors and
/// the samples of the three planes.
pub struct DecodeState {
    pub mb_addr: int,
    pub qs: int,
    pub pred: Seq<int>,
    pub y: Seq<u8>,
    pub cb: Seq<u8>,
    pub cr: Seq<u8>,
}

/// `d` with the 8x8 block whose top-left sample is `idx`, in rows `w` long,
/// replaced by `samples`.
pub open spec fn write_block_seq(d: Seq<u8>, idx: int, w: int, samples: Seq<u8>) -> Seq<u8> {
    Seq::new(d.len(), |k: int| if in_block(k, idx, w) { samples[((k - idx) / w) * 8 + (k - idx) % w] } else { d[k] })
}

/// `st` with block `i` of its current macroblock set to `samples`, in a
/// picture `width` pixels wide.
pub open spec fn with_block(st: DecodeState, width: int, i: int, samples: Seq<u8>) -> DecodeState {
    let mbw = mb_count(width);
    let row = st.mb_addr / mbw;
    let col = st.mb_addr % mbw;
    if i < 4 {
        let w = mbw * 16;
        let idx = (row * 16 + (i / 2) * 8) * w + col * 16 + (i % 2) * 8;
        DecodeState { mb_addr: st.mb_addr, qs: st.qs, pred: st.pred, y: write_block_seq(st.y, idx, w, samples), cb: st.cb, cr: st.cr }
    } else {
        let w = mbw * 8;
        let idx = (row * 8) * w + col * 8;
        if i == 4 {
            DecodeState { mb_addr: st.mb_addr, qs: st.qs, pred: st.pred, y: st.y, cb: write_block_seq(st.cb, idx, w, samples), cr: st.cr }
        } else {
            DecodeState { mb_addr: st.mb_addr, qs: st.qs, pred: st.pred, y: st.y, cb: st.cb, cr: write_block_seq(st.cr, idx, w, samples) }
        }
    }
}

/// Decoding of intra block `i` at `pos`: its DC differential, added to the
/// predictor of its plane (a DC value beyond `DC_LIMIT` is malformed), its AC
/// coefficients, then its samples written into its plane.
pub open spec fn block_step(data: Seq<u8>, pos: int, width: int, st: DecodeState, i: int) -> Result<(DecodeState, int), MpegError> {
    let k = plane_index(i);
    match dc_term(data, pos, i < 4) {
        Err(e) => Err(e),
        Ok((diff, p1)) => {
            let dc = st.pred[k] + diff;
            if dc < -DC_LIMIT || dc > DC_LIMIT {
                Err(MpegError::Format)
            } else {
                match ac_coefficients(data, p1, 1, dc_block(dc), st.qs) {
                    Err(e) => Err(e),
                    Ok((b, n, p2)) => {
                        let st1 = DecodeState { mb_addr: st.mb_addr, qs: st.qs, pred: st.pred.update(k, dc), y: st.y, cb: st.cb, cr: st.cr };
                        Ok((with_block(st1, width, i, block_samples(b, n)), p2))
                    },
                }
            }
        },
    }
}

/// Blocks `i` to 5 of a macroblock, one after the other.
pub open spec fn blocks_from(data: Seq<u8>, pos: int, width: int, st: DecodeState, i: int) -> Result<(DecodeState, int), MpegError>
    decreases 6 - i,
{
    if i >= 6 {
        Ok((st, pos))
    } else {
        match block_step(data, pos, width, st, i) {
            Err(e) => Err(e),
            Ok((st1, p1)) => blocks_from(data, p1, width, st1, i + 1),
        }
    }
}

/// Decoding of one macroblock of an intra picture `width` by `height` at
/// `pos`: the address increment (past the last macroblock is malformed), the
/// type, a new non-zero 5-bit quantizer scale for type `0b1_0001`, then its
/// six blocks. A macroblock before any quantizer scale is known is malformed.
#[verifier::opaque]
pub open spec fn macroblock_spec(data: Seq<u8>, pos: int, width: int, height: int, st: DecodeState) -> Result<(DecodeState, int), MpegError> {
    let mbs = mb_count(width) * mb_count(height);
    match address_increment(data, pos) {
        Err(e) => Err(e),
        Ok((inc, p)) => if inc > mbs - 1 - st.mb_addr {
            Err(MpegError::Format)
        } else {
            match crate::vlc::macroblock_type(data, p) {
                Err(e) => Err(e),
                Ok((t, q)) => if st.mb_addr + inc < 0 || (st.qs == 0 && t != 0b1_0001) {
                    Err(MpegError::Format)
                } else if t == 0b1_0001 {
                    if q + 5 > 8 * data.len() {
                        Err(MpegError::UnexpectedEof)
                    } else if bits_value(data, q, 5) == 0 {
                        Err(MpegError::Format)
                    } else {
                        let st1 = DecodeState { mb_addr: st.mb_addr + inc, qs: bits_value(data, q, 5) as int, pred: st.pred, y: st.y, cb: st.cb, cr: st.cr };
                        blocks_from(data, q + 5, width, st1, 0)
                    }
                } else {
                    let st1 = DecodeState { mb_addr: st.mb_addr + inc, qs: st.qs, pred: st.pred, y: st.y, cb: st.cb, cr: st.cr };
                    blocks_from(data, q, width, st1, 0)
                },
            }
        },
    }
}

/// The end of the extra information of a slice at `pos`: while the next bit
/// is 1, it and the following 8 bits are skipped; a 0 bit ends it.
pub open spec fn extra_info_end(data: Seq<u8>, pos: int) -> Result<int, MpegError>
    decreases 8 * data.len() - pos,
{
    if pos < 0 || pos >= 8 * data.len() {
        Err(MpegError::UnexpectedEof)
    } else if bit_at(data, pos) == 0 {
        Ok(pos + 1)
    } else if pos + 9 > 8 * data.len() {
        Err(MpegError::UnexpectedEof)
    } else {
        extra_info_end(data, pos + 9)
    }
}

/// The macroblocks of a slice from `pos`: decoded until the last macroblock
/// of the picture, or until the next 23 bits are zero (a start code follows).
pub open spec fn macroblocks_spec(data: Seq<u8>, pos: int, width: int, height: int, st: DecodeState) -> Result<(DecodeState, int), MpegError>
    decreases 8 * data.len() - pos,
{
    let mbs = mb_count(width) * mb_count(height);
    match macroblock_spec(data, pos, width, height, st) {
        Err(e) => Err(e),
        Ok((st1, p1)) => if st1.mb_addr >= mbs - 1 {
            Ok((st1, p1))
        } else if p1 + 23 > 8 * data.len() {
            Err(MpegError::UnexpectedEof)
        } else if bits_value(data, p1, 23) == 0 {
            Ok((st1, p1))
        } else if p1 <= pos {
            // a macroblock always takes bits; this keeps the definition total
            Err(MpegError::Format)
        } else {
            macroblocks_spec(data, p1, width, height, st1)
        },
    }
}

/// Decoding of the slice whose start code `00 00 01 slice_nr` is at `pos`:
/// the predictors are reset to 128 and the address to just before the first
/// macroblock of row `slice_nr - 1` (a row past the picture is malformed);
/// a non-zero 5-bit quantizer scale and the extra information follow, then
/// the macroblocks. The slice ends at the first start code of the video layer
/// from the byte after its last bit.
pub open spec fn slice_spec(data: Seq<u8>, pos: int, width: int, height: int, st: DecodeState, slice_nr: int) -> Result<(DecodeState, int), MpegError> {
    let mbw = mb_count(width);
    let start = (slice_nr - 1) * mbw - 1;
    let p = pos + 32;
    if start + 1 >= mbw * mb_count(height) {
        Err(MpegError::Format)
    } else if p + 5 > 8 * data.len() {
        Err(MpegError::UnexpectedEof)
    } else if bits_value(data, p, 5) == 0 {
        Err(MpegError::Format)
    } else {
        match extra_info_end(data, p + 5) {
            Err(e) => Err(e),
            Ok(p2) => {
                let st1 = DecodeState { mb_addr: start, qs: bits_value(data, p, 5) as int, pred: seq![128int, 128int, 128int], y: st.y, cb: st.cb, cr: st.cr };
                match macroblocks_spec(data, p2, width, height, st1) {
                    Err(e) => Err(e),
                    Ok((st2, p3)) => match first_video_layer_code(data, (p3 + 7) / 8) {
                        None => Err(MpegError::UnexpectedEof),
                        Some(k) => Ok((st2, 8 * k)),
                    },
                }
            },
        }
    }
}

/// Skips the extra information of a slice.
pub fn parse_extra_slice_info(r: &mut BitReader) -> (res: Result<(), MpegError>)
    requires
        old(r).wf(),
    ensures
        final(r).wf(),
        final(r).data@ == old(r).data@,
        final(r).pos >= old(r).pos,
        match extra_info_end(old(r).data@, old(r).pos as int) {
            Ok(p) => res is Ok && final(r).pos == p,
            Err(e) => res == Err::<(), MpegError>(e),
        },
{
    loop
        invariant
            r.wf(),
            r.data@ == old(r).data@,
            r.pos >= old(r).pos,
            extra_info_end(old(r).data@, old(r).pos as int) == extra_info_end(r.data@, r.pos as int),
        decreases r.len_bits() - r.pos,
    {
        if r.read_bit()? == 0 {
            return Ok(());
        }
        r.read_bits(8)?;
    }
}

/// Byte index of the first group of pictures, sequence header or picture
/// start code at or after byte `j`.
pub open spec fn first_resume_code(data: Seq<u8>, j: int) -> Option<int>
    decreases data.len() - j,
{
    if j < 0 || j + 4 > data.len() {
        None
    } else if is_resume_code(code_at(data, j)) {
        Some(j)
    } else {
        first_resume_code(data, j + 1)
    }
}

proof fn lemma_first_resume_skip(data: Seq<u8>, a: int, b: int)
    requires
        0 <= a <= b,
        forall|k: int| a <= k < b && k + 4 <= data.len() ==> !is_resume_code(#[trigger] code_at(data, k)),
    ensures
        first_resume_code(data, a) == first_resume_code(data, b) || (first_resume_code(data, a) is None && b + 4 > data.len()),
    decreases b - a,
{
    if a < b {
        if a + 4 <= data.len() {
            lemma_first_resume_skip(data, a + 1, b);
        } else {
            lemma_first_resume_none(data, a);
        }
    }
}

proof fn lemma_first_resume_none(data: Seq<u8>, a: int)
    requires
        0 <= a,
        forall|k: int| a <= k && k + 4 <= data.len() ==> !is_resume_code(#[trigger] code_at(data, k)),
    ensures
        first_resume_code(data, a) is None,
    decreases data.len() - a,
{
    if a + 4 <= data.len() {
        lemma_first_resume_none(data, a + 1);
    }
}

/// From the start code at byte `k`, past any extension and user data start
/// codes, to the first other start code.
pub open spec fn skip_ext(data: Seq<u8>, k: int) -> Option<int>
    decreases data.len() - k,
{
    if k < 0 || k + 4 > data.len() {
        None
    } else if data[k + 3] == START_EXTENSION || data[k + 3] == START_USER_DATA {
        match first_prefix(data, k + 4) {
            None => None,
            Some(k2) => if k < k2 && k2 + 4 <= data.len() { skip_ext(data, k2) } else { None },
        }
    } else {
        Some(k)
    }
}

/// The state at the start of a picture `width` by `height`: no macroblock
/// yet, no quantizer scale, predictors 128 and black planes.
pub open spec fn initial_state(width: int, height: int) -> DecodeState {
    let mbw = mb_count(width);
    let mbh = mb_count(height);
    DecodeState {
        mb_addr: -1,
        qs: 0,
        pred: seq![128int, 128int, 128int],
        y: Seq::new((mbw * 16 * (mbh * 16)) as nat, |k: int| 0u8),
        cb: Seq::new((mbw * 8 * (mbh * 8)) as nat, |k: int| 0u8),
        cr: Seq::new((mbw * 8 * (mbh * 8)) as nat, |k: int| 0u8),
    }
}

/// The slices of a picture from the slice start code at byte `k`, numbered
/// `code`: each is decoded, and decoding goes on while a slice start code
/// follows.
pub open spec fn slices_spec(data: Seq<u8>, k: int, width: int, height: int, st: DecodeState, code: int) -> Result<(DecodeState, int), MpegError>
    decreases data.len() - k,
{
    match slice_spec(data, 8 * k, width, height, st, code) {
        Err(e) => Err(e),
        Ok((st1, p1)) => {
            let k1 = p1 / 8;
            if k < k1 && k1 + 4 <= data.len() && is_slice_code(code_at(data, k1)) {
                slices_spec(data, k1, width, height, st1, data[k1 + 3] as int)
            } else {
                Ok((st1, p1))
            }
        },
    }
}

/// The bytes of a sequence header, where there is one.
pub open spec fn seq_raw(s: Option<SequenceHeader>) -> Option<Seq<u8>> {
    match s {
        Some(h) => Some(h.raw@),
        None => None,
    }
}

/// Decoding of the picture whose start code is at bit `pos`, under the
/// sequence header `seq`. A picture that is not intra-coded is skipped to the
/// first group, sequence or picture start code after its 4 header bytes. An
/// intra picture is followed, past extension and user data, by a slice start
/// code (else it is malformed); it needs a sequence header; its slices are
/// decoded into a black frame of the sequence's size, which is converted to
/// packed RGB.
#[verifier::opaque]
pub open spec fn picture_spec(data: Seq<u8>, pos: int, seq: Option<Seq<u8>>) -> Result<(Option<Seq<u8>>, int), MpegError> {
    let j = pos / 8;
    if j + 8 > data.len() {
        Err(MpegError::UnexpectedEof)
    } else if (data[j + 5] as int / 8) % 8 != FRAME_TYPE_I {
        match first_resume_code(data, j + 8) {
            Some(k) => Ok((None, 8 * k)),
            None => Err(MpegError::UnexpectedEof),
        }
    } else {
        match first_prefix(data, j + 8) {
            None => Err(MpegError::UnexpectedEof),
            Some(k) => match skip_ext(data, k) {
                None => Err(MpegError::UnexpectedEof),
                Some(k2) => {
                    let code = data[k2 + 3] as int;
                    if code < 1 || code > 0xAF {
                        Err(MpegError::Format)
                    } else {
                        match seq {
                            None => Err(MpegError::Format),
                            Some(raw) => {
                                let w = hsize_of(raw[0], raw[1]);
                                let h = vsize_of(raw[1], raw[2]);
                                match slices_spec(data, k2, w, h, initial_state(w, h), code) {
                                    Err(e) => Err(e),
                                    Ok((st, p)) => Ok((Some(rgb_image(w, h, mb_count(w) * 16, mb_count(w) * 8, st.y, st.cb, st.cr)), p)),
                                }
                            },
                        }
                    }
                },
            },
        }
    }
}

/// The video elementary stream read from byte `j` under the sequence header
/// bytes `seq`, up to its next intra picture: yields that picture in RGB (or
/// none where fewer than four bytes remain), the sequence header then in
/// force, and the byte where reading stopped. A sequence header start code
/// is followed by 8 header bytes (a zero size is malformed), a group of
/// pictures start code by 4; a picture is decoded or skipped; any other byte
/// is passed over.
pub open spec fn stream_spec(data: Seq<u8>, j: int, seq: Option<Seq<u8>>) -> Result<(Option<Seq<u8>>, Option<Seq<u8>>, int), MpegError>
    decreases data.len() - j,
{
    if j < 0 || j + 4 > data.len() {
        Ok((None, seq, j))
    } else if has_prefix(code_at(data, j)) && data[j + 3] == SEQUENCE_HEADER_START_VALUE {
        if j + 12 > data.len() {
            Err(MpegError::UnexpectedEof)
        } else {
            let raw = data.subrange(j + 4, j + 12);
            if hsize_of(raw[0], raw[1]) == 0 || vsize_of(raw[1], raw[2]) == 0 {
                Err(MpegError::Format)
            } else {
                stream_spec(data, j + 12, Some(raw))
            }
        }
    } else if has_prefix(code_at(data, j)) && data[j + 3] == GROUP_OF_PICTURES_START_VALUE {
        if j + 8 > data.len() {
            Err(MpegError::UnexpectedEof)
        } else {
            stream_spec(data, j + 8, seq)
        }
    } else if has_prefix(code_at(data, j)) && data[j + 3] == PICTURE_START_VALUE {
        match picture_spec(data, 8 * j, seq) {
            Err(e) => Err(e),
            Ok((Some(rgb), p)) => Ok((Some(rgb), seq, p / 8)),
            Ok((None, p)) => if j < p / 8 <= data.len() {
                stream_spec(data, p / 8, seq)
            } else {
                Err(MpegError::Format)
            },
        }
    } else {
        stream_spec(data, j + 1, seq)
    }
}

proof fn lemma_write_block_seq(d0: Seq<u8>, d1: Seq<u8>, idx: int, w: int, samples: Seq<u8>)
    requires
        8 <= w,
        0 <= idx,
        idx + 7 * w + 8 <= d0.len(),
        d1.len() == d0.len(),
        forall|r: int, c: int| 0 <= r < 8 && 0 <= c < 8 ==> #[trigger] d1[idx + r * w + c] == samples[r * 8 + c],
        forall|k: int| 0 <= k < d0.len() && !in_block(k, idx, w) ==> d1[k] == d0[k],
    ensures
        d1 == write_block_seq(d0, idx, w, samples),
{
    assert forall|k: int| 0 <= k < d0.len() implies d1[k] == write_block_seq(d0, idx, w, samples)[k] by {
        if in_block(k, idx, w) {
            let r = (k - idx) / w;
            let c = (k - idx) % w;
            vstd::arithmetic::div_mod::lemma_fundamental_div_mod(k - idx, w);
            assert(k == idx + r * w + c) by (nonlinear_arith)
                requires
                    k - idx == w * r + c,
            ;
            assert(0 <= r) by (nonlinear_arith)
                requires
                    k - idx == w * r + c,
                    idx <= k,
                    0 <= c < w,
                    8 <= w,
            ;
            assert(d1[idx + r * w + c] == samples[r * 8 + c]);
        }
    }
    assert(d1 =~= write_block_seq(d0, idx, w, samples));
}

/// Floor division by `d`, the arithmetic right shift by `log2(d)`.
fn floor_div(x: i32, d: i32) -> (r: i32)
    requires
        d >= 2,
    ensures
        r == x as int / d as int,
{
    assert(i32::MIN <= x as int / d as int <= i32::MAX) by (nonlinear_arith)
        requires
            d >= 2,
            i32::MIN <= x <= i32::MAX,
    ;
    match x.checked_div_euclid(d) {
        Some(q) => q,
        None => 0,
    }
}

/// Reads the DC differential of a block.
pub fn parse_dc_term(r: &mut BitReader, luminance: bool) -> (res: Result<i32, MpegError>)
    requires
        old(r).wf(),
    ensures
        final(r).wf(),
        final(r).data@ == old(r).data@,
        final(r).pos >= old(r).pos,
        match dc_term(old(r).data@, old(r).pos as int, luminance) {
            Ok((d, p)) => res == Ok::<i32, MpegError>(d as i32) && final(r).pos == p && -256 <= d <= 255,
            Err(e) => res == Err::<i32, MpegError>(e),
        },
{
    let dct_size: u8 = if luminance {
        parse_dct_dc_size(&VIDEO_DCT_SIZE_LUMINANCE, r)?
    } else {
        parse_dct_dc_size(&VIDEO_DCT_SIZE_CHROMINANCE, r)?
    };
    if dct_size == 0 {
        return Ok(0);
    }
    if dct_size > 8 {
        return Err(MpegError::Format);
    }
    let ghost pos = r.pos;
    let coded = r.read_bits(dct_size as u32)?;
    proof {
        crate::bits::lemma_bits_value_bound(r.data@, pos as int, dct_size as nat);
        vstd::arithmetic::power2::lemma2_to64();
        if dct_size < 8 {
            vstd::arithmetic::power2::lemma_pow2_strictly_increases(dct_size as nat, 8);
        }
    }
    let diff = decode_dc_diff(coded as u8, dct_size);
    proof {
        vstd::arithmetic::power2::lemma_pow2_unfold(dct_size as nat);
    }
    Ok(diff as i32)
}

/// Reads the AC coefficients of an intra block into `block`, dequantized with
/// `quantizer_scale`; returns the index after the last coefficient.
pub fn parse_ac_coefficients(r: &mut BitReader, block: &mut [i32; 64], quantizer_scale: u8) -> (res: Result<usize, MpegError>)
    requires
        old(r).wf(),
        quantizer_scale <= 31,
        forall|k: int| 0 <= k < 64 ==> -IDCT_INPUT_LIMIT <= #[trigger] old(block)[k] <= IDCT_INPUT_LIMIT,
    ensures
        final(r).wf(),
        final(r).data@ == old(r).data@,
        final(r).pos >= old(r).pos,
        forall|k: int| 0 <= k < 64 ==> -IDCT_INPUT_LIMIT <= #[trigger] final(block)[k] <= IDCT_INPUT_LIMIT,
        match ac_coefficients(old(r).data@, old(r).pos as int, 1, as_ints(old(block)@), quantizer_scale as int) {
            Ok((b, n, p)) => res == Ok::<usize, MpegError>(n as usize) && final(r).pos == p
                && as_ints(final(block)@) == b && 1 <= n <= 64,
            Err(e) => res == Err::<usize, MpegError>(e),
        },
{
    let ghost data = r.data@;
    let ghost qs = quantizer_scale as int;
    let ghost whole = ac_coefficients(data, r.pos as int, 1, as_ints(block@), qs);
    let mut n: usize = 1;
    loop
        invariant
            1 <= n <= 64,
            r.wf(),
            r.data@ == data,
            data == old(r).data@,
            r.pos >= old(r).pos,
            quantizer_scale <= 31,
            qs == quantizer_scale,
            whole == ac_coefficients(old(r).data@, old(r).pos as int, 1, as_ints(old(block)@), qs),
            whole == ac_coefficients(data, r.pos as int, n as int, as_ints(block@), qs),
            forall|k: int| 0 <= k < 64 ==> -IDCT_INPUT_LIMIT <= #[trigger] block[k] <= IDCT_INPUT_LIMIT,
        decreases 64 - n,
    {
        let ghost b = as_ints(block@);
        let ghost p = r.pos as int;
        match read_coefficient(r)? {
            Coefficient::EndOfBlock => {
                assert(whole == Ok::<(Seq<int>, int, int), MpegError>((b, n as int, r.pos as int)));
                return Ok(n);
            },
            Coefficient::Level { run, level } => {
                n = n + run as usize;
                if n >= 64 {
                    return Err(MpegError::Format);
                }
                proof {
                    lemma_table_bounds();
                }
                let de_zig_zagged: usize = VIDEO_ZIG_ZAG[n] as usize;
                n = n + 1;
                let q = dequantize(level, quantizer_scale, de_zig_zagged);
                let premultiplier: i32 = VIDEO_PREMULTIPLIER_MATRIX[de_zig_zagged];
                assert(-2048 * 62 <= q * premultiplier <= 2047 * 62) by (nonlinear_arith)
                    requires
                        -2048 <= q <= 2047,
                        0 <= premultiplier <= 62,
                ;
                block[de_zig_zagged] = q * premultiplier;
                assert(as_ints(block@) =~= b.update(de_zig_zagged as int, (q * premultiplier) as int));
            },
        }
    }
}

/// The samples of a block whose coefficients end before index `n`: the
/// clamped rounded DC value where `n` is 1, else the clamped inverse transform.
pub fn decoded_samples(block: &mut [i32; 64], n: usize) -> (r: [u8; 64])
    requires
        forall|k: int| 0 <= k < 64 ==> -IDCT_INPUT_LIMIT <= #[trigger] old(block)[k] <= IDCT_INPUT_LIMIT,
    ensures
        r@ == block_samples(as_ints(old(block)@), n as int),
{
    let ghost b = as_ints(block@);
    let mut clamped: [u8; 64] = [0u8; 64];
    if n == 1 {
        let v = clamp(floor_div(block[0] + 128, 256));
        clamped = [v; 64];
        assert(clamped@ =~= block_samples(b, n as int));
    } else {
        plm_video_idct(block);
        let mut k: usize = 0;
        while k < 64
            invariant
                k <= 64,
                n != 1,
                as_ints(block@) == idct(b),
                forall|j: int| 0 <= j < k ==> clamped[j] == block_samples(b, n as int)[j],
            decreases 64 - k,
        {
            assert(as_ints(block@)[k as int] == block[k as int]);
            clamped[k] = clamp(block[k]);
            k = k + 1;
        }
        assert(clamped@ =~= block_samples(b, n as int));
    }
    clamped
}

/// Copies the 8x8 block `op` into `dest`, whose rows are `dest_width` long,
/// with its top-left sample at `dest_idx`.
pub fn block_set(dest: &mut Vec<u8>, dest_idx: usize, dest_width: usize, op: &[u8; 64])
    requires
        8 <= dest_width,
        dest_idx + 7 * dest_width + 8 <= old(dest)@.len() <= usize::MAX,
    ensures
        final(dest)@.len() == old(dest)@.len(),
        forall|r: int, c: int| 0 <= r < 8 && 0 <= c < 8
            ==> #[trigger] final(dest)@[dest_idx + r * dest_width + c] == op[r * 8 + c],
        forall|i: int| 0 <= i < old(dest)@.len() && !in_block(i, dest_idx as int, dest_width as int)
            ==> final(dest)@[i] == old(dest)@[i],
{
    let mut y: usize = 0;
    while y < 8
        invariant
            8 <= dest_width,
            dest_idx + 7 * dest_width + 8 <= old(dest)@.len() <= usize::MAX,
            y <= 8,
            dest@.len() == old(dest)@.len(),
            forall|r: int, c: int| 0 <= r < y && 0 <= c < 8
                ==> #[trigger] dest@[dest_idx + r * dest_width + c] == op[r * 8 + c],
            forall|i: int| 0 <= i < old(dest)@.len() && !in_block(i, dest_idx as int, dest_width as int)
                ==> dest@[i] == old(dest)@[i],
        decreases 8 - y,
    {
        assert(y * dest_width <= 7 * dest_width) by (nonlinear_arith)
            requires
                y < 8,
        ;
        let row_start: usize = dest_idx + y * dest_width;
        let mut x: usize = 0;
        while x < 8
            invariant
                8 <= dest_width,
                dest_idx + 7 * dest_width + 8 <= old(dest)@.len() <= usize::MAX,
                y < 8,
                x <= 8,
                row_start == dest_idx + y * dest_width,
                y * dest_width <= 7 * dest_width,
                dest@.len() == old(dest)@.len(),
                forall|r: int, c: int| 0 <= r < y && 0 <= c < 8
                    ==> #[trigger] dest@[dest_idx + r * dest_width + c] == op[r * 8 + c],
                forall|c: int| 0 <= c < x ==> #[trigger] dest@[row_start + c] == op[y * 8 + c],
                forall|i: int| 0 <= i < old(dest)@.len() && !in_block(i, dest_idx as int, dest_width as int)
                    ==> dest@[i] == old(dest)@[i],
            decreases 8 - x,
        {
            proof {
                lemma_in_block(dest_idx as int, dest_width as int, y as int, x as int);
            }
            let ghost before = dest@;
            dest.set(row_start + x, op[y * 8 + x]);
            proof {
                assert forall|r: int, c: int| 0 <= r < y && 0 <= c < 8 implies
                    #[trigger] dest@[dest_idx + r * dest_width + c] == op[r * 8 + c] by {
                    lemma_block_index_distinct(dest_width as int, r, c, y as int, x as int);
                    assert(r * dest_width <= 7 * dest_width) by (nonlinear_arith)
                        requires
                            r < 8,
                            0 <= dest_width,
                    ;
                    assert(before[dest_idx + r * dest_width + c] == op[r * 8 + c]);
                }
            }
            x = x + 1;
        }
        y = y + 1;
    }
}

/// Index `i` lies in the 8x8 block whose top-left sample is `idx`, in rows `w` long.
pub open spec fn in_block(i: int, idx: int, w: int) -> bool {
    idx <= i && (i - idx) / w < 8 && (i - idx) % w < 8
}

proof fn lemma_in_block(idx: int, w: int, r: int, c: int)
    requires
        8 <= w,
        0 <= r < 8,
        0 <= c < 8,
    ensures
        in_block(idx + r * w + c, idx, w),
{
    vstd::arithmetic::div_mod::lemma_fundamental_div_mod_converse(r * w + c, w, r, c);
    assert(0 <= r * w) by (nonlinear_arith)
        requires
            0 <= r,
            8 <= w,
    ;
}

proof fn lemma_block_index_distinct(w: int, r1: int, c1: int, r2: int, c2: int)
    requires
        8 <= w,
        0 <= c1 < 8,
        0 <= c2 < 8,
        r1 != r2 || c1 != c2,
    ensures
        r1 * w + c1 != r2 * w + c2,
{
    if r1 < r2 {
        assert(r1 * w + w <= r2 * w) by (nonlinear_arith)
            requires
                r1 < r2,
                0 <= w,
        ;
    } else if r2 < r1 {
        assert(r2 * w + w <= r1 * w) by (nonlinear_arith)
            requires
                r2 < r1,
                0 <= w,
        ;
    }
}

pub proof fn lemma_table_bounds()
    ensures
        forall|k: int| 0 <= k < 64 ==> #[trigger] VIDEO_ZIG_ZAG[k] < 64,
        forall|k: int| 0 <= k < 64 ==> 0 <= #[trigger] VIDEO_PREMULTIPLIER_MATRIX[k] <= 62,
{
}

/// A block of `8` by `8` samples with top-left corner `(px, py)` fits in a
/// plane `w` wide and `h` high.
proof fn lemma_block_fits(px: int, py: int, w: int, h: int)
    requires
        0 <= px,
        px + 8 <= w,
        0 <= py,
        py + 8 <= h,
    ensures
        py * w + px + 7 * w + 8 <= w * h,
        0 <= py * w + px,
{
    assert(py * w + px + 7 * w + 8 <= w * h) by (nonlinear_arith)
        requires
            0 <= px,
            px + 8 <= w,
            0 <= py,
            py + 8 <= h,
    ;
    assert(0 <= py * w) by (nonlinear_arith)
        requires
            0 <= py,
            0 <= w,
    ;
}

/// Decoding state of one picture: its frame, the position of the current
/// macroblock, the quantizer scale and the DC predictors of Y, Cb and Cr.
pub struct Container {
    pub mb_row: i32,
    pub mb_col: i32,
    pub mb_addr: i32,
    pub mb_width: i32,
    pub mb_height: i32,
    pub mb_size: i32,
    pub width: u16,
    pub height: u16,
    pub quantizer_scale: u8,
    pub dc_predictor: [i32; 3],
    pub frame: Frame,
}

impl Container {
    pub open spec fn wf(&self) -> bool {
        &&& self.frame.wf()
        &&& self.frame.width == self.width
        &&& self.frame.height == self.height
        &&& 1 <= self.width
        &&& 1 <= self.height
        &&& self.mb_width == mb_count(self.width as int)
        &&& self.mb_height == mb_count(self.height as int)
        &&& self.mb_size == self.mb_width * self.mb_height
        &&& -1 <= self.mb_addr < self.mb_size
        &&& 0 <= self.mb_row < self.mb_height
        &&& 0 <= self.mb_col < self.mb_width
        &&& self.quantizer_scale <= 31
        &&& forall|k: int| 0 <= k < 3 ==> -DC_LIMIT <= #[trigger] self.dc_predictor[k] <= DC_LIMIT
    }

    /// The decoding state as mathematical values.
    pub open spec fn state(&self) -> DecodeState {
        DecodeState {
            mb_addr: self.mb_addr as int,
            qs: self.quantizer_scale as int,
            pred: seq![self.dc_predictor[0] as int, self.dc_predictor[1] as int, self.dc_predictor[2] as int],
            y: self.frame.y.data@,
            cb: self.frame.cb.data@,
            cr: self.frame.cr.data@,
        }
    }

    /// The current macroblock's row and column follow from its address.
    pub open spec fn at_address(&self) -> bool {
        &&& self.mb_addr >= 0
        &&& self.mb_row == self.mb_addr / self.mb_width
        &&& self.mb_col == self.mb_addr % self.mb_width
    }

    /// The picture-wide facts that decoding a macroblock leaves alone.
    pub open spec fn same_picture(&self, other: &Container) -> bool {
        &&& self.width == other.width
        &&& self.height == other.height
        &&& self.mb_width == other.mb_width
        &&& self.mb_height == other.mb_height
        &&& self.mb_size == other.mb_size
    }

    pub fn new(width: u16, height: u16) -> (r: Container)
        requires
            1 <= width <= MAX_DIMENSION,
            1 <= height <= MAX_DIMENSION,
        ensures
            r.wf(),
            r.width == width,
            r.height == height,
            r.mb_addr == -1,
            r.mb_row == 0,
            r.mb_col == 0,
            r.quantizer_scale == 0,
            r.dc_predictor@ == seq![128i32, 128i32, 128i32],
            r.frame.width == width,
            r.frame.height == height,
            forall|i: int| 0 <= i < r.frame.y.data@.len() ==> r.frame.y.data@[i] == 0,
            forall|i: int| 0 <= i < r.frame.cb.data@.len() ==> r.frame.cb.data@[i] == 0,
            forall|i: int| 0 <= i < r.frame.cr.data@.len() ==> r.frame.cr.data@[i] == 0,
    {
        let mb_width: i32 = (width as i32 + 15) / 16;
        let mb_height: i32 = (height as i32 + 15) / 16;
        assert(mb_width * mb_height <= 0x400 * 0x400) by (nonlinear_arith)
            requires
                1 <= mb_width <= 0x400,
                1 <= mb_height <= 0x400,
        ;
        assert(mb_width * mb_height >= 1) by (nonlinear_arith)
            requires
                1 <= mb_width,
                1 <= mb_height,
        ;
        Container {
            mb_row: 0,
            mb_col: 0,
            mb_addr: -1,
            mb_width,
            mb_height,
            mb_size: mb_width * mb_height,
            width,
            height,
            quantizer_scale: 0,
            dc_predictor: [128; 3],
            frame: Frame::new(width, height),
        }
    }

    /// Decodes intra block `i` of the current macroblock (0 to 3 luma, 4 Cb,
    /// 5 Cr) and writes its samples into the frame.
    pub fn parse_block(&mut self, r: &mut BitReader, i: usize) -> (res: Result<(), MpegError>)
        requires
            old(self).wf(),
            old(self).at_address(),
            old(r).wf(),
            i < 6,
        ensures
            match block_step(old(r).data@, old(r).pos as int, old(self).width as int, old(self).state(), i as int) {
                Ok((st, p)) => res is Ok && final(self).state() == st && final(r).pos == p,
                Err(e) => res == Err::<(), MpegError>(e),
            },
            final(self).wf(),
            final(self).same_picture(old(self)),
            final(self).mb_addr == old(self).mb_addr,
            final(self).mb_row == old(self).mb_row,
            final(self).mb_col == old(self).mb_col,
            final(self).quantizer_scale == old(self).quantizer_scale,
            final(r).wf(),
            final(r).data@ == old(r).data@,
            final(r).pos >= old(r).pos,
            ({
                let data = old(r).data@;
                let k = plane_index(i as int);
                match dc_term(data, old(r).pos as int, i < 4) {
                    Err(e) => res == Err::<(), MpegError>(e),
                    Ok((diff, p1)) => {
                        let dc = old(self).dc_predictor[k] + diff;
                        if dc < -DC_LIMIT || dc > DC_LIMIT {
                            res == Err::<(), MpegError>(MpegError::Format)
                        } else {
                            match ac_coefficients(data, p1, 1, dc_block(dc), old(self).quantizer_scale as int) {
                                Err(e) => res == Err::<(), MpegError>(e),
                                Ok((b, n, p2)) => {
                                    &&& res is Ok
                                    &&& final(r).pos == p2
                                    &&& final(self).dc_predictor[k] == dc
                                    &&& block_written(old(self).frame, final(self).frame, i as int,
                                        old(self).mb_row as int, old(self).mb_col as int, block_samples(b, n))
                                },
                            }
                        }
                    },
                }
            }),
    {
        let ghost data = r.data@;
        let plane_index: usize = if i < 4 { 0 } else { i - 3 };
        let predictor: i32 = self.dc_predictor[plane_index];
        let diff = parse_dc_term(r, i < 4)?;
        let dc: i32 = predictor + diff;
        if dc < -DC_LIMIT || dc > DC_LIMIT {
            return Err(MpegError::Format);
        }
        let ghost st0 = self.state();
        self.dc_predictor[plane_index] = dc;
        assert(self.state().pred =~= st0.pred.update(plane_index as int, dc as int));
        let mut block_data: [i32; 64] = [0i32; 64];
        block_data[0] = dc * 256;
        assert(as_ints(block_data@) =~= dc_block(dc as int));
        let n = parse_ac_coefficients(r, &mut block_data, self.quantizer_scale)?;
        let clamped = decoded_samples(&mut block_data, n);
        self.write_block(i, &clamped);
        Ok(())
    }

    /// Writes the samples of block `i` of the current macroblock into its plane.
    fn write_block(&mut self, i: usize, clamped: &[u8; 64])
        requires
            old(self).wf(),
            old(self).at_address(),
            i < 6,
        ensures
            final(self).state() == with_block(old(self).state(), old(self).width as int, i as int, clamped@),
            final(self).wf(),
            final(self).same_picture(old(self)),
            final(self).mb_addr == old(self).mb_addr,
            final(self).mb_row == old(self).mb_row,
            final(self).mb_col == old(self).mb_col,
            final(self).quantizer_scale == old(self).quantizer_scale,
            final(self).dc_predictor == old(self).dc_predictor,
            block_written(old(self).frame, final(self).frame, i as int, old(self).mb_row as int,
                old(self).mb_col as int, clamped@),
    {
        let row: usize = self.mb_row as usize;
        let col: usize = self.mb_col as usize;
        let yw: usize = self.frame.y.width as usize;
        proof {
            let mbw = self.mb_width as int;
            let mbh = self.mb_height as int;
            assert(self.frame.y.width == mbw * 16);
            assert(self.frame.y.height == mbh * 16);
        }
        if i < 4 {
            let px: usize = col * 16 + (i % 2) * 8;
            let py: usize = row * 16 + (i / 2) * 8;
            proof {
                lemma_block_fits(px as int, py as int, yw as int, self.frame.y.height as int);
                assert(yw * self.frame.y.height <= 0x4000 * 0x4000) by (nonlinear_arith)
                    requires
                        0 <= yw <= 0x4000,
                        0 <= self.frame.y.height <= 0x4000,
                ;
            }
            let ghost d0 = self.frame.y.data@;
            block_set(&mut self.frame.y.data, py * yw + px, yw, &clamped);
            proof {
                lemma_write_block_seq(d0, self.frame.y.data@, (py * yw + px) as int, yw as int, clamped@);
            }
        } else {
            let cw: usize = self.frame.cb.width as usize;
            let px: usize = col * 8;
            let py: usize = row * 8;
            proof {
                lemma_block_fits(px as int, py as int, cw as int, self.frame.cb.height as int);
                assert(cw * self.frame.cb.height <= 0x2000 * 0x2000) by (nonlinear_arith)
                    requires
                        0 <= cw <= 0x2000,
                        0 <= self.frame.cb.height <= 0x2000,
                ;
            }
            if i == 4 {
                let ghost d0 = self.frame.cb.data@;
                block_set(&mut self.frame.cb.data, py * cw + px, cw, &clamped);
                proof {
                    lemma_write_block_seq(d0, self.frame.cb.data@, (py * cw + px) as int, cw as int, clamped@);
                }
            } else {
                let ghost d0 = self.frame.cr.data@;
                block_set(&mut self.frame.cr.data, py * cw + px, cw, &clamped);
                proof {
                    lemma_write_block_seq(d0, self.frame.cr.data@, (py * cw + px) as int, cw as int, clamped@);
                }
            }
        }
    }
}

/// Byte index of the first start code prefix `00 00 01` at or after byte `j`.
pub open spec fn first_prefix(data: Seq<u8>, j: int) -> Option<int>
    decreases data.len() - j,
{
    if j < 0 || j + 4 > data.len() {
        None
    } else if has_prefix(code_at(data, j)) {
        Some(j)
    } else {
        first_prefix(data, j + 1)
    }
}

/// Byte index of the first start code of the video layer at or after byte `j`.
pub open spec fn first_video_layer_code(data: Seq<u8>, j: int) -> Option<int>
    decreases data.len() - j,
{
    if j < 0 || j + 4 > data.len() {
        None
    } else if is_video_layer_code(code_at(data, j)) {
        Some(j)
    } else {
        first_video_layer_code(data, j + 1)
    }
}

/// Moves to the next start code prefix `00 00 01` at or after the current
/// byte, and returns the byte that follows it; the reader stays before the code.
pub fn next_start_code(r: &mut BitReader) -> (res: Result<u8, MpegError>)
    requires
        old(r).wf(),
        old(r).pos % 8 == 0,
    ensures
        final(r).wf(),
        final(r).data@ == old(r).data@,
        final(r).pos % 8 == 0,
        match first_prefix(old(r).data@, old(r).pos as int / 8) {
            Some(j) => res == Ok::<u8, MpegError>(old(r).data@[j + 3]) && final(r).pos == 8 * j,
            None => res == Err::<u8, MpegError>(MpegError::UnexpectedEof),
        },
        match res {
            Ok(c) => {
                let j = final(r).pos as int / 8;
                &&& old(r).pos <= final(r).pos
                &&& j + 4 <= old(r).data@.len()
                &&& has_prefix(code_at(old(r).data@, j))
                &&& old(r).data@[j + 3] == c
                &&& forall|k: int| old(r).pos / 8 <= k < j ==> !has_prefix(#[trigger] code_at(old(r).data@, k))
            },
            Err(e) => {
                &&& e == MpegError::UnexpectedEof
                &&& final(r).pos == old(r).pos
                &&& forall|k: int| old(r).pos / 8 <= k && k + 4 <= old(r).data@.len()
                    ==> !has_prefix(#[trigger] code_at(old(r).data@, k))
            },
        },
{
    let len: usize = r.data.len();
    let mut j: usize = (r.pos / 8) as usize;
    while len - j >= 4
        invariant
            r.wf(),
            r.data@ == old(r).data@,
            r.pos == old(r).pos,
            r.pos % 8 == 0,
            len == r.data@.len(),
            r.pos / 8 <= j <= r.data@.len(),
            forall|k: int| r.pos / 8 <= k < j ==> !has_prefix(#[trigger] code_at(r.data@, k)),
            first_prefix(r.data@, r.pos as int / 8) == first_prefix(r.data@, j as int),
        decreases r.data@.len() - j,
    {
        if r.data[j] == 0 && r.data[j + 1] == 0 && r.data[j + 2] == 1 {
            let c = r.data[j + 3];
            r.pos = j as u64 * 8;
            return Ok(c);
        }
        j = j + 1;
    }
    Err(MpegError::UnexpectedEof)
}

/// Moves to the next start code of the video layer (`00`..=`B8`) at or after
/// the current byte; the reader stays before the code.
pub fn advance_to_next_start_code(r: &mut BitReader) -> (res: Result<(), MpegError>)
    requires
        old(r).wf(),
        old(r).pos % 8 == 0,
    ensures
        final(r).wf(),
        final(r).data@ == old(r).data@,
        final(r).pos % 8 == 0,
        match first_video_layer_code(old(r).data@, old(r).pos as int / 8) {
            Some(j) => res is Ok && final(r).pos == 8 * j,
            None => res == Err::<(), MpegError>(MpegError::UnexpectedEof),
        },
        match res {
            Ok(()) => {
                let j = final(r).pos as int / 8;
                &&& old(r).pos <= final(r).pos
                &&& j + 4 <= old(r).data@.len()
                &&& is_video_layer_code(code_at(old(r).data@, j))
                &&& forall|k: int| old(r).pos / 8 <= k < j ==> !is_video_layer_code(#[trigger] code_at(old(r).data@, k))
            },
            Err(e) => {
                &&& e == MpegError::UnexpectedEof
                &&& final(r).pos == old(r).pos
                &&& forall|k: int| old(r).pos / 8 <= k && k + 4 <= old(r).data@.len()
                    ==> !is_video_layer_code(#[trigger] code_at(old(r).data@, k))
            },
        },
{
    let len: usize = r.data.len();
    let mut j: usize = (r.pos / 8) as usize;
    while len - j >= 4
        invariant
            r.wf(),
            r.data@ == old(r).data@,
            r.pos == old(r).pos,
            r.pos % 8 == 0,
            len == r.data@.len(),
            r.pos / 8 <= j <= r.data@.len(),
            forall|k: int| r.pos / 8 <= k < j ==> !is_video_layer_code(#[trigger] code_at(r.data@, k)),
            first_video_layer_code(r.data@, r.pos as int / 8) == first_video_layer_code(r.data@, j as int),
        decreases r.data@.len() - j,
    {
        if r.data[j] == 0 && r.data[j + 1] == 0 && r.data[j + 2] == 1 && r.data[j + 3] <= 0xB8 {
            r.pos = j as u64 * 8;
            return Ok(());
        }
        j = j + 1;
    }
    Err(MpegError::UnexpectedEof)
}

proof fn lemma_row_col(a: int, w: int, h: int)
    requires
        0 <= a < w * h,
        1 <= w,
    ensures
        0 <= a / w < h,
        0 <= a % w < w,
{
    vstd::arithmetic::div_mod::lemma_fundamental_div_mod(a, w);
    let q = a / w;
    let m = a % w;
    assert(q < h) by (nonlinear_arith)
        requires
            a == w * q + m,
            0 <= m < w,
            a < w * h,
            1 <= w,
    ;
    assert(0 <= q) by (nonlinear_arith)
        requires
            a == w * q + m,
            0 <= a,
            m < w,
            1 <= w,
    ;
}

impl Container {
    /// Decodes one macroblock of an intra picture: its address increment,
    /// its type, an optional new quantizer scale and its six blocks.
    pub fn parse_macroblock(&mut self, r: &mut BitReader) -> (res: Result<(), MpegError>)
        requires
            old(self).wf(),
            old(r).wf(),
        ensures
            final(self).wf(),
            final(self).same_picture(old(self)),
            final(r).wf(),
            final(r).data@ == old(r).data@,
            match macroblock_spec(old(r).data@, old(r).pos as int, old(self).width as int, old(self).height as int, old(self).state()) {
                Ok((st, p)) => res is Ok && final(self).state() == st && final(r).pos == p,
                Err(e) => res == Err::<(), MpegError>(e),
            },
            res is Ok ==> {
                &&& final(self).at_address()
                &&& 1 <= final(self).quantizer_scale
                &&& final(r).pos > old(r).pos
            },
            address_increment(old(r).data@, old(r).pos as int) is Err ==> final(self).state() == old(self).state(),
    {
        let ghost data = r.data@;
        proof {
            reveal(macroblock_spec);
            crate::vlc::lemma_address_increment_advances(r.data@, r.pos as int);
        }
        let max_inc: i32 = self.mb_size - 1 - self.mb_addr;
        let addr_inc = parse_address_increment(r, max_inc as u32)?;
        let macro_type = parse_macroblock_type(r)?;
        if self.mb_addr + (addr_inc as i32) < 0 {
            return Err(MpegError::Format);
        }
        if self.quantizer_scale == 0 && macro_type != 0b1_0001 {
            return Err(MpegError::Format);
        }
        self.mb_addr = self.mb_addr + addr_inc as i32;
        proof {
            lemma_row_col(self.mb_addr as int, self.mb_width as int, self.mb_height as int);
        }
        self.mb_row = self.mb_addr / self.mb_width;
        self.mb_col = self.mb_addr % self.mb_width;
        if macro_type == 0b1_0001 {
            let ghost pos = r.pos;
            let q = r.read_bits(5)?;
            proof {
                crate::bits::lemma_bits_value_bound(r.data@, pos as int, 5);
                vstd::arithmetic::power2::lemma2_to64();
            }
            if q == 0 {
                return Err(MpegError::Format);
            }
            self.quantizer_scale = q as u8;
        }
        let ghost whole = blocks_from(data, r.pos as int, self.width as int, self.state(), 0);
        assert(whole == macroblock_spec(data, old(r).pos as int, old(self).width as int, old(self).height as int, old(self).state()));
        let mut i: usize = 0;
        while i < 6
            invariant
                i <= 6,
                self.wf(),
                self.at_address(),
                self.same_picture(old(self)),
                1 <= self.quantizer_scale,
                r.wf(),
                r.data@ == data,
                data == old(r).data@,
                r.pos > old(r).pos,
                whole == macroblock_spec(data, old(r).pos as int, old(self).width as int, old(self).height as int, old(self).state()),
                whole == blocks_from(data, r.pos as int, self.width as int, self.state(), i as int),
                address_increment(data, old(r).pos as int) is Ok,
            decreases 6 - i,
        {
            self.parse_block(r, i)?;
            i = i + 1;
        }
        Ok(())
    }

    /// Decodes the macroblocks of a slice: up to the last macroblock of the
    /// picture, or until the next 23 bits are zero.
    pub fn parse_macroblocks(&mut self, r: &mut BitReader) -> (res: Result<(), MpegError>)
        requires
            old(self).wf(),
            old(r).wf(),
        ensures
            final(self).wf(),
            final(self).same_picture(old(self)),
            final(r).wf(),
            final(r).data@ == old(r).data@,
            match macroblocks_spec(old(r).data@, old(r).pos as int, old(self).width as int, old(self).height as int, old(self).state()) {
                Ok((st, p)) => res is Ok && final(self).state() == st && final(r).pos == p && p > old(r).pos,
                Err(e) => res == Err::<(), MpegError>(e),
            },
    {
        let ghost data = r.data@;
        let ghost blocks = macroblocks_spec(data, r.pos as int, self.width as int, self.height as int, self.state());
        loop
            invariant
                r.wf(),
                r.data@ == data,
                data == old(r).data@,
                r.pos >= old(r).pos,
                self.wf(),
                self.same_picture(old(self)),
                blocks == macroblocks_spec(old(r).data@, old(r).pos as int, old(self).width as int, old(self).height as int, old(self).state()),
                blocks == macroblocks_spec(data, r.pos as int, self.width as int, self.height as int, self.state()),
            decreases r.len_bits() - r.pos,
        {
            let ghost head = r.pos as int;
            self.parse_macroblock(r)?;
            if self.mb_addr >= self.mb_size - 1 {
                return Ok(());
            }
            proof {
                crate::bits::lemma_bits_value_bound(data, r.pos as int, 23);
                vstd::arithmetic::power2::lemma2_to64();
            }
            let next_bits = r.peek_bits(23)?;
            if next_bits == 0 {
                return Ok(());
            }
            assert(r.pos as int > head);
        }
    }

    /// Decodes the slices of a picture from the slice start code at the
    /// reader, numbered `first`, while slice start codes follow.
    pub fn parse_slices(&mut self, r: &mut BitReader, first: u8) -> (res: Result<(), MpegError>)
        requires
            old(self).wf(),
            old(r).wf(),
            old(r).pos % 8 == 0,
            old(r).pos + 32 <= old(r).len_bits(),
            1 <= first <= 0xAF,
        ensures
            final(self).wf(),
            final(self).same_picture(old(self)),
            final(r).wf(),
            final(r).data@ == old(r).data@,
            match slices_spec(old(r).data@, old(r).pos as int / 8, old(self).width as int, old(self).height as int, old(self).state(), first as int) {
                Ok((st, p)) => res is Ok && final(self).state() == st && final(r).pos == p,
                Err(e) => res == Err::<(), MpegError>(e),
            },
            res is Ok ==> final(r).pos % 8 == 0 && final(r).pos > old(r).pos,
    {
        let ghost data = r.data@;
        let ghost whole = slices_spec(data, r.pos as int / 8, self.width as int, self.height as int, self.state(), first as int);
        let mut code = first;
        loop
            invariant
                self.wf(),
                self.same_picture(old(self)),
                r.wf(),
                r.data@ == data,
                data == old(r).data@,
                r.pos % 8 == 0,
                r.pos >= old(r).pos,
                r.pos + 32 <= r.len_bits(),
                1 <= code <= 0xAF,
                whole == slices_spec(old(r).data@, old(r).pos as int / 8, old(self).width as int, old(self).height as int, old(self).state(), first as int),
                whole == slices_spec(data, r.pos as int / 8, self.width as int, self.height as int, self.state(), code as int),
            decreases r.len_bits() - r.pos,
        {
            let ghost k = r.pos as int / 8;
            assert(8 * k == r.pos);
            self.parse_slice(r, code)?;
            let len: usize = r.data.len();
            let j: usize = (r.pos / 8) as usize;
            let b: [u8; 4] = [r.data[j], r.data[j + 1], r.data[j + 2], r.data[j + 3]];
            assert(b@ =~= code_at(data, j as int));
            if !is_slice_start_code(&b) {
                return Ok(());
            }
            code = b[3];
        }
    }

    /// Decodes the slice whose start code is at the reader, then moves to the
    /// next start code of the video layer.
    pub fn parse_slice(&mut self, r: &mut BitReader, slice_nr: u8) -> (res: Result<(), MpegError>)
        requires
            old(self).wf(),
            old(r).wf(),
            old(r).pos % 8 == 0,
            old(r).pos + 32 <= old(r).len_bits(),
            1 <= slice_nr <= 0xAF,
        ensures
            final(self).wf(),
            final(self).same_picture(old(self)),
            final(r).wf(),
            final(r).data@ == old(r).data@,
            match slice_spec(old(r).data@, old(r).pos as int, old(self).width as int, old(self).height as int, old(self).state(), slice_nr as int) {
                Ok((st, p)) => res is Ok && final(self).state() == st && final(r).pos == p,
                Err(e) => res == Err::<(), MpegError>(e),
            },
            res is Ok ==> {
                &&& final(r).pos % 8 == 0
                &&& final(r).pos > old(r).pos
                &&& final(r).pos / 8 + 4 <= final(r).data@.len()
                &&& is_video_layer_code(code_at(final(r).data@, final(r).pos as int / 8))
                &&& final(self).mb_addr <= final(self).mb_size - 1
            },
    {
        let ghost data = r.data@;
        r.pos = r.pos + 32;
        let ghost start_pos = r.pos;
        self.dc_predictor = [128; 3];
        assert(self.mb_width <= 0x400);
        assert(0 <= (slice_nr - 1) * self.mb_width <= 0xAF * 0x400) by (nonlinear_arith)
            requires
                1 <= slice_nr <= 0xAF,
                0 <= self.mb_width <= 0x400,
        ;
        let start: i32 = (slice_nr as i32 - 1) * self.mb_width - 1;
        if start + 1 >= self.mb_size {
            return Err(MpegError::Format);
        }
        assert(start >= -1) by (nonlinear_arith)
            requires
                start == (slice_nr - 1) * self.mb_width - 1,
                slice_nr >= 1,
                self.mb_width >= 0,
        ;
        self.mb_addr = start;
        let ghost pos = r.pos;
        let q = r.read_bits(5)?;
        proof {
            crate::bits::lemma_bits_value_bound(r.data@, pos as int, 5);
            vstd::arithmetic::power2::lemma2_to64();
        }
        if q == 0 {
            return Err(MpegError::Format);
        }
        self.quantizer_scale = q as u8;
        let ghost whole = slice_spec(data, old(r).pos as int, old(self).width as int, old(self).height as int, old(self).state(), slice_nr as int);
        let ghost p_extra = r.pos as int;
        assert(self.state().pred =~= seq![128int, 128int, 128int]);
        parse_extra_slice_info(r)?;
        let ghost st1 = self.state();
        let ghost p2 = r.pos as int;
        let ghost blocks = macroblocks_spec(data, p2, self.width as int, self.height as int, st1);
        assert(whole == match blocks {
            Err(e) => Err(e),
            Ok((st2, p3)) => match first_video_layer_code(data, (p3 + 7) / 8) {
                None => Err(MpegError::UnexpectedEof),
                Some(k) => Ok::<(DecodeState, int), MpegError>((st2, 8 * k)),
            },
        });
        self.parse_macroblocks(r)?;
        let ghost p3 = r.pos as int;
        assert(blocks == Ok::<(DecodeState, int), MpegError>((self.state(), p3)));
        r.align_to_byte();
        assert(r.pos as int / 8 == (p3 + 7) / 8);
        advance_to_next_start_code(r)?;
        Ok(())
    }
}

/// From the start code prefix at or after the reader, moves past extension
/// and user data start codes to the next other start code, and returns its
/// last byte; the reader stays before that code.
pub fn skip_extensions(r: &mut BitReader) -> (res: Result<u8, MpegError>)
    requires
        old(r).wf(),
        old(r).pos % 8 == 0,
    ensures
        final(r).wf(),
        final(r).data@ == old(r).data@,
        final(r).pos % 8 == 0,
        final(r).pos >= old(r).pos,
        match first_prefix(old(r).data@, old(r).pos as int / 8) {
            None => res == Err::<u8, MpegError>(MpegError::UnexpectedEof),
            Some(k) => match skip_ext(old(r).data@, k) {
                None => res == Err::<u8, MpegError>(MpegError::UnexpectedEof),
                Some(k2) => res == Ok::<u8, MpegError>(old(r).data@[k2 + 3]) && final(r).pos == 8 * k2
                    && k2 + 4 <= old(r).data@.len(),
            },
        },
{
    let ghost data = r.data@;
    let mut code = next_start_code(r)?;
    let ghost k1 = r.pos as int / 8;
    while code == START_EXTENSION || code == START_USER_DATA
        invariant
            r.wf(),
            r.pos % 8 == 0,
            r.pos >= old(r).pos,
            r.data@ == data,
            data == old(r).data@,
            first_prefix(data, old(r).pos as int / 8) == Some(k1),
            skip_ext(data, k1) == skip_ext(data, r.pos as int / 8),
            r.pos as int / 8 + 4 <= data.len(),
            data[r.pos as int / 8 + 3] == code,
        decreases r.len_bits() - r.pos,
    {
        r.pos = r.pos + 32;
        code = next_start_code(r)?;
    }
    Ok(code)
}

/// Reads the byte at a byte-aligned reader.
pub fn read_byte(r: &mut BitReader) -> (res: Result<u8, MpegError>)
    requires
        old(r).wf(),
        old(r).pos % 8 == 0,
    ensures
        final(r).wf(),
        final(r).data@ == old(r).data@,
        final(r).pos % 8 == 0,
        old(r).pos / 8 < old(r).data@.len() ==> res == Ok::<u8, MpegError>(old(r).data@[old(r).pos as int / 8])
            && final(r).pos == old(r).pos + 8,
        old(r).pos / 8 >= old(r).data@.len() ==> res == Err::<u8, MpegError>(MpegError::UnexpectedEof)
            && final(r).pos == old(r).pos,
{
    let len: usize = r.data.len();
    let j: usize = (r.pos / 8) as usize;
    if j >= len {
        return Err(MpegError::UnexpectedEof);
    }
    let b = r.data[j];
    r.pos = r.pos + 8;
    Ok(b)
}

/// A start code after which decoding resumes past a skipped picture:
/// group of pictures, sequence header or picture.
pub open spec fn is_resume_code(b: Seq<u8>) -> bool {
    has_prefix(b) && (b[3] == GROUP_OF_PICTURES_START_VALUE || b[3] == SEQUENCE_HEADER_START_VALUE
        || b[3] == PICTURE_START_VALUE)
}

/// The sizes of a sequence header describe a picture.
pub open spec fn valid_sizes(h: SequenceHeader) -> bool {
    hsize_of(h.raw[0], h.raw[1]) >= 1 && vsize_of(h.raw[1], h.raw[2]) >= 1
}

/// An intra picture converted to packed RGB.
pub struct DecodedPicture {
    pub width: u16,
    pub height: u16,
    pub rgb: Vec<u8>,
}

/// Decoder of a video elementary stream, handing out its intra pictures one by one.
pub struct MpegDecoder {
    pub reader: BitReader,
    pub sequence: Option<SequenceHeader>,
}

impl MpegDecoder {
    pub open spec fn wf(&self) -> bool {
        &&& self.reader.wf()
        &&& (self.sequence matches Some(h) ==> valid_sizes(h))
    }

    pub fn new(video: Vec<u8>) -> (r: MpegDecoder)
        requires
            8 * video@.len() <= u64::MAX,
        ensures
            r.wf(),
            r.reader.data@ == video@,
            r.reader.pos == 0,
            r.sequence is None,
    {
        MpegDecoder { reader: BitReader::new(video), sequence: None }
    }

    /// Moves past a picture that is not decoded, to the next group of
    /// pictures, sequence header or picture start code.
    pub fn skip_to_picture_boundary(&mut self) -> (res: Result<(), MpegError>)
        requires
            old(self).wf(),
            old(self).reader.pos % 8 == 0,
        ensures
            final(self).wf(),
            final(self).sequence == old(self).sequence,
            final(self).reader.data@ == old(self).reader.data@,
            match first_resume_code(old(self).reader.data@, old(self).reader.pos as int / 8) {
                Some(j) => res is Ok && final(self).reader.pos == 8 * j,
                None => res == Err::<(), MpegError>(MpegError::UnexpectedEof),
            },
            res is Ok ==> {
                let j = final(self).reader.pos as int / 8;
                let data = old(self).reader.data@;
                &&& final(self).reader.pos % 8 == 0
                &&& old(self).reader.pos <= final(self).reader.pos
                &&& j + 4 <= data.len()
                &&& is_resume_code(code_at(data, j))
                &&& forall|k: int| old(self).reader.pos / 8 <= k < j && k + 4 <= data.len()
                    ==> !is_resume_code(#[trigger] code_at(data, k))
            },
    {
        let ghost data = self.reader.data@;
        let ghost start = self.reader.pos as int / 8;
        loop
            invariant
                self.wf(),
                self.reader.pos % 8 == 0,
                self.sequence == old(self).sequence,
                self.reader.data@ == data,
                data == old(self).reader.data@,
                start == old(self).reader.pos as int / 8,
                old(self).reader.pos <= self.reader.pos,
                forall|k: int| start <= k < self.reader.pos / 8 && k + 4 <= data.len()
                    ==> !is_resume_code(#[trigger] code_at(data, k)),
            decreases self.reader.len_bits() - self.reader.pos,
        {
            let ghost before = self.reader.pos as int / 8;
            let c = match next_start_code(&mut self.reader) {
                Ok(c) => c,
                Err(e) => {
                    proof {
                        assert forall|k: int| before <= k && k + 4 <= data.len()
                            implies !is_resume_code(#[trigger] code_at(data, k)) by {}
                        lemma_first_resume_none(data, before);
                        lemma_first_resume_skip(data, start, before);
                    }
                    return Err(e);
                },
            };
            let ghost j = self.reader.pos as int / 8;
            if c == GROUP_OF_PICTURES_START_VALUE || c == SEQUENCE_HEADER_START_VALUE || c == PICTURE_START_VALUE {
                proof {
                    assert forall|k: int| start <= k < j && k + 4 <= data.len()
                        implies !is_resume_code(#[trigger] code_at(data, k)) by {
                        if k >= before {
                            assert(!has_prefix(code_at(data, k)));
                        }
                    }
                    lemma_first_resume_skip(data, start, j);
                    assert(code_at(data, j)[3] == data[j + 3]);
                }
                return Ok(());
            }
            proof {
                assert forall|k: int| start <= k < j + 4 && k + 4 <= data.len()
                    implies !is_resume_code(#[trigger] code_at(data, k)) by {
                    if k >= before && k < j {
                        assert(!has_prefix(code_at(data, k)));
                    } else if k >= j {
                        assert(code_at(data, k)[0] == data[k]);
                        assert(code_at(data, k)[1] == data[k + 1]);
                        assert(code_at(data, k)[2] == data[k + 2]);
                        assert(code_at(data, k)[3] == data[k + 3]);
                        assert(code_at(data, j)[2] == data[j + 2]);
                        assert(code_at(data, j)[1] == data[j + 1]);
                    }
                }
            }
            self.reader.pos = self.reader.pos + 32;
        }
    }

    /// Decodes the picture whose start code is at the reader. An intra picture
    /// is decoded slice by slice and returned in RGB; any other is skipped.
    pub fn parse_picture(&mut self) -> (res: Result<Option<DecodedPicture>, MpegError>)
        requires
            old(self).wf(),
            old(self).reader.pos % 8 == 0,
            old(self).reader.pos + 32 <= old(self).reader.len_bits(),
        ensures
            final(self).wf(),
            final(self).sequence == old(self).sequence,
            final(self).reader.data@ == old(self).reader.data@,
            res is Ok ==> final(self).reader.pos > old(self).reader.pos && final(self).reader.pos % 8 == 0,
            res matches Ok(Some(p)) ==> {
                &&& p.rgb@.len() == p.width * p.height * 3
                &&& 1 <= p.width
                &&& 1 <= p.height
                &&& old(self).sequence matches Some(h)
                &&& p.width == hsize_of(h.raw[0], h.raw[1])
                &&& p.height == vsize_of(h.raw[1], h.raw[2])
            },
            match picture_spec(old(self).reader.data@, old(self).reader.pos as int, seq_raw(old(self).sequence)) {
                Ok((pic, p)) => final(self).reader.pos == p && match pic {
                    None => res matches Ok(None),
                    Some(rgb) => (res matches Ok(Some(q)) && q.rgb@ == rgb),
                },
                Err(e) => res == Err::<Option<DecodedPicture>, MpegError>(e),
            },
            ({
                let data = old(self).reader.data@;
                let j = old(self).reader.pos as int / 8;
                j + 6 <= data.len() && (data[j + 5] as int / 8) % 8 != FRAME_TYPE_I ==> {
                    &&& !(res matches Ok(Some(_)))
                    &&& res is Ok ==> is_resume_code(code_at(data, final(self).reader.pos as int / 8))
                    &&& res is Ok ==> forall|k: int| j + 8 <= k < final(self).reader.pos as int / 8 && k + 4 <= data.len()
                        ==> !is_resume_code(#[trigger] code_at(data, k))
                }
            }),
    {
        let ghost data = self.reader.data@;
        proof {
            reveal(picture_spec);
        }
        self.reader.pos = self.reader.pos + 32;
        let b0 = read_byte(&mut self.reader)?;
        let b1 = read_byte(&mut self.reader)?;
        let b2 = read_byte(&mut self.reader)?;
        let b3 = read_byte(&mut self.reader)?;
        let hdr = PictureHeader::new([b0, b1, b2, b3]);
        if hdr.frame_type() != FRAME_TYPE_I {
            self.skip_to_picture_boundary()?;
            return Ok(None);
        }
        let mut code = skip_extensions(&mut self.reader)?;
        if !(code >= 1 && code <= 0xAF) {
            return Err(MpegError::Format);
        }
        let (width, height) = match &self.sequence {
            Some(seq) => (seq.hsize(), seq.vsize()),
            None => {
                return Err(MpegError::Format);
            },
        };
        let mut container = Container::new(width, height);
        let ghost w = width as int;
        let ghost h = height as int;
        proof {
            let init = initial_state(w, h);
            assert(container.state().y =~= init.y);
            assert(container.state().cb =~= init.cb);
            assert(container.state().cr =~= init.cr);
            assert(container.state().pred =~= init.pred);
            assert(container.state() == init);
        }
        container.parse_slices(&mut self.reader, code)?;
        let rgb = container.frame.to_rgb();
        Ok(Some(DecodedPicture { width, height, rgb }))
    }

    /// Decodes up to the next intra picture and returns it; `None` once fewer
    /// than four bytes are left. Sequence headers set the picture size; a
    /// sequence header with a zero size is malformed.
    #[verifier::rlimit(80)]
    pub fn next_picture(&mut self) -> (res: Result<Option<DecodedPicture>, MpegError>)
        requires
            old(self).wf(),
        ensures
            final(self).wf(),
            final(self).reader.data@ == old(self).reader.data@,
            res matches Ok(Some(p)) ==> {
                &&& p.rgb@.len() == p.width * p.height * 3
                &&& 1 <= p.width
                &&& 1 <= p.height
                &&& final(self).reader.pos > old(self).reader.pos
                &&& final(self).sequence matches Some(h)
                &&& p.width == hsize_of(h.raw[0], h.raw[1])
                &&& p.height == vsize_of(h.raw[1], h.raw[2])
            },
            res matches Ok(None) ==> final(self).reader.pos / 8 + 4 > final(self).reader.data@.len(),
            match stream_spec(old(self).reader.data@, (old(self).reader.pos as int + 7) / 8, seq_raw(old(self).sequence)) {
                Ok((pic, sq, j)) => final(self).reader.pos == 8 * j && seq_raw(final(self).sequence) == sq && match pic {
                    None => res matches Ok(None),
                    Some(rgb) => (res matches Ok(Some(q)) && q.rgb@ == rgb),
                },
                Err(e) => res == Err::<Option<DecodedPicture>, MpegError>(e),
            },
    {
        let ghost data = self.reader.data@;
        self.reader.align_to_byte();
        let ghost whole = stream_spec(data, self.reader.pos as int / 8, seq_raw(self.sequence));
        loop
            invariant
                self.wf(),
                self.reader.pos % 8 == 0,
                self.reader.data@ == data,
                data == old(self).reader.data@,
                self.reader.pos >= old(self).reader.pos,
                whole == stream_spec(data, (old(self).reader.pos as int + 7) / 8, seq_raw(old(self).sequence)),
                whole == stream_spec(data, self.reader.pos as int / 8, seq_raw(self.sequence)),
            decreases self.reader.len_bits() - self.reader.pos,
        {
            let ghost it = self.reader.pos;
            let len: usize = self.reader.data.len();
            let j: usize = (self.reader.pos / 8) as usize;
            if len - j < 4 {
                return Ok(None);
            }
            let b: [u8; 4] = [self.reader.data[j], self.reader.data[j + 1], self.reader.data[j + 2], self.reader.data[j + 3]];
            assert(b@ =~= code_at(data, j as int));
            assert(code_at(data, j as int)[3] == data[j + 3]);
            if is_start_code(&b, SEQUENCE_HEADER_START_VALUE) {
                self.reader.pos = self.reader.pos + 32;
                let mut raw: [u8; 8] = [0u8; 8];
                let mut k: usize = 0;
                while k < 8
                    invariant
                        k <= 8,
                        self.wf(),
                        self.reader.pos % 8 == 0,
                        self.reader.data@ == data,
                        data == old(self).reader.data@,
                        self.reader.pos > it >= old(self).reader.pos,
                        it == 8 * j,
                        self.reader.pos == 8 * (j + 4 + k),
                        j + 4 + k <= data.len(),
                        whole == stream_spec(data, j as int, seq_raw(self.sequence)),
                        whole == stream_spec(data, (old(self).reader.pos as int + 7) / 8, seq_raw(old(self).sequence)),
                        forall|i: int| 0 <= i < k ==> raw[i] == data[j + 4 + i],
                        has_prefix(code_at(data, j as int)),
                        data[j + 3] == SEQUENCE_HEADER_START_VALUE,
                    decreases 8 - k,
                {
                    raw[k] = read_byte(&mut self.reader)?;
                    k = k + 1;
                }
                assert(raw@ =~= data.subrange(j + 4, j + 12));
                let hdr = SequenceHeader::new(raw);
                if hdr.hsize() == 0 || hdr.vsize() == 0 {
                    return Err(MpegError::Format);
                }
                self.sequence = Some(hdr);
            } else if is_start_code(&b, GROUP_OF_PICTURES_START_VALUE) {
                self.reader.pos = self.reader.pos + 32;
                let mut k: usize = 0;
                while k < 4
                    invariant
                        k <= 4,
                        self.wf(),
                        self.reader.pos % 8 == 0,
                        self.reader.data@ == data,
                        data == old(self).reader.data@,
                        self.reader.pos > it >= old(self).reader.pos,
                        it == 8 * j,
                        self.reader.pos == 8 * (j + 4 + k),
                        j + 4 + k <= data.len(),
                        whole == stream_spec(data, j as int, seq_raw(self.sequence)),
                        whole == stream_spec(data, (old(self).reader.pos as int + 7) / 8, seq_raw(old(self).sequence)),
                        has_prefix(code_at(data, j as int)),
                        data[j + 3] == GROUP_OF_PICTURES_START_VALUE,
                    decreases 4 - k,
                {
                    read_byte(&mut self.reader)?;
                    k = k + 1;
                }
            } else if is_start_code(&b, PICTURE_START_VALUE) {
                if let Some(p) = self.parse_picture()? {
                    return Ok(Some(p));
                }
            } else {
                self.reader.pos = self.reader.pos + 8;
            }
        }
    }
}

} // verus!
