//! Variable-length codes of the video layer: code-tree tables and their decoding.
use vstd::prelude::*;
use vstd::arithmetic::power2::pow2;

use crate::bits::{bit_at, bits_value, BitReader};
use crate::error::MpegError;

verus! {

pub const VIDEO_DCT_SIZE_LUMINANCE: [(i16, i16); 18] = [
    (  1 << 1,    0), (  2 << 1,    0),  //   0: x
    (       0,    1), (       0,    2),  //   1: 0x
    (  3 << 1,    0), (  4 << 1,    0),  //   2: 1x
    (       0,    0), (       0,    3),  //   3: 10x
    (       0,    4), (  5 << 1,    0),  //   4: 11x
    (       0,    5), (  6 << 1,    0),  //   5: 111x
    (       0,    6), (  7 << 1,    0),  //   6: 1111x
    (       0,    7), (  8 << 1,    0),  //   7: 1111 1x
    (       0,    8), (      -1,    0),  //   8: 1111 11x
];

pub const VIDEO_DCT_SIZE_CHROMINANCE: [(i16, i16); 18] = [
    (  1 << 1,    0), (  2 << 1,    0),  //   0: x
    (       0,    0), (       0,    1),  //   1: 0x
    (       0,    2), (  3 << 1,    0),  //   2: 1x
    (       0,    3), (  4 << 1,    0),  //   3: 11x
    (       0,    4), (  5 << 1,    0),  //   4: 111x
    (       0,    5), (  6 << 1,    0),  //   5: 1111x
    (       0,    6), (  7 << 1,    0),  //   6: 1111 1x
    (       0,    7), (  8 << 1,    0),  //   7: 1111 11x
    (       0,    8), (      -1,    0),  //   8: 1111 111x
];

pub const VIDEO_DCT_COEFF: [(i16, u16); 224] = [
    (  1 << 1,        0), (       0,   0x0001),  //   0: x
    (  2 << 1,        0), (  3 << 1,        0),  //   1: 0x
    (  4 << 1,        0), (  5 << 1,        0),  //   2: 00x
    (  6 << 1,        0), (       0,   0x0101),  //   3: 01x
    (  7 << 1,        0), (  8 << 1,        0),  //   4: 000x
    (  9 << 1,        0), ( 10 << 1,        0),  //   5: 001x
    (       0,   0x0002), (       0,   0x0201),  //   6: 010x
    ( 11 << 1,        0), ( 12 << 1,        0),  //   7: 0000x
    ( 13 << 1,        0), ( 14 << 1,        0),  //   8: 0001x
    ( 15 << 1,        0), (       0,   0x0003),  //   9: 0010x
    (       0,   0x0401), (       0,   0x0301),  //  10: 0011x
    ( 16 << 1,        0), (       0,   0xffff),  //  11: 0000 0x
    ( 17 << 1,        0), ( 18 << 1,        0),  //  12: 0000 1x
    (       0,   0x0701), (       0,   0x0601),  //  13: 0001 0x
    (       0,   0x0102), (       0,   0x0501),  //  14: 0001 1x
    ( 19 << 1,        0), ( 20 << 1,        0),  //  15: 0010 0x
    ( 21 << 1,        0), ( 22 << 1,        0),  //  16: 0000 00x
    (       0,   0x0202), (       0,   0x0901),  //  17: 0000 10x
    (       0,   0x0004), (       0,   0x0801),  //  18: 0000 11x
    ( 23 << 1,        0), ( 24 << 1,        0),  //  19: 0010 00x
    ( 25 << 1,        0), ( 26 << 1,        0),  //  20: 0010 01x
    ( 27 << 1,        0), ( 28 << 1,        0),  //  21: 0000 000x
    ( 29 << 1,        0), ( 30 << 1,        0),  //  22: 0000 001x
    (       0,   0x0d01), (       0,   0x0006),  //  23: 0010 000x
    (       0,   0x0c01), (       0,   0x0b01),  //  24: 0010 001x
    (       0,   0x0302), (       0,   0x0103),  //  25: 0010 010x
    (       0,   0x0005), (       0,   0x0a01),  //  26: 0010 011x
    ( 31 << 1,        0), ( 32 << 1,        0),  //  27: 0000 0000x
    ( 33 << 1,        0), ( 34 << 1,        0),  //  28: 0000 0001x
    ( 35 << 1,        0), ( 36 << 1,        0),  //  29: 0000 0010x
    ( 37 << 1,        0), ( 38 << 1,        0),  //  30: 0000 0011x
    ( 39 << 1,        0), ( 40 << 1,        0),  //  31: 0000 0000 0x
    ( 41 << 1,        0), ( 42 << 1,        0),  //  32: 0000 0000 1x
    ( 43 << 1,        0), ( 44 << 1,        0),  //  33: 0000 0001 0x
    ( 45 << 1,        0), ( 46 << 1,        0),  //  34: 0000 0001 1x
    (       0,   0x1001), (       0,   0x0502),  //  35: 0000 0010 0x
    (       0,   0x0007), (       0,   0x0203),  //  36: 0000 0010 1x
    (       0,   0x0104), (       0,   0x0f01),  //  37: 0000 0011 0x
    (       0,   0x0e01), (       0,   0x0402),  //  38: 0000 0011 1x
    ( 47 << 1,        0), ( 48 << 1,        0),  //  39: 0000 0000 00x
    ( 49 << 1,        0), ( 50 << 1,        0),  //  40: 0000 0000 01x
    ( 51 << 1,        0), ( 52 << 1,        0),  //  41: 0000 0000 10x
    ( 53 << 1,        0), ( 54 << 1,        0),  //  42: 0000 0000 11x
    ( 55 << 1,        0), ( 56 << 1,        0),  //  43: 0000 0001 00x
    ( 57 << 1,        0), ( 58 << 1,        0),  //  44: 0000 0001 01x
    ( 59 << 1,        0), ( 60 << 1,        0),  //  45: 0000 0001 10x
    ( 61 << 1,        0), ( 62 << 1,        0),  //  46: 0000 0001 11x
    (      -1,        0), ( 63 << 1,        0),  //  47: 0000 0000 000x
    ( 64 << 1,        0), ( 65 << 1,        0),  //  48: 0000 0000 001x
    ( 66 << 1,        0), ( 67 << 1,        0),  //  49: 0000 0000 010x
    ( 68 << 1,        0), ( 69 << 1,        0),  //  50: 0000 0000 011x
    ( 70 << 1,        0), ( 71 << 1,        0),  //  51: 0000 0000 100x
    ( 72 << 1,        0), ( 73 << 1,        0),  //  52: 0000 0000 101x
    ( 74 << 1,        0), ( 75 << 1,        0),  //  53: 0000 0000 110x
    ( 76 << 1,        0), ( 77 << 1,        0),  //  54: 0000 0000 111x
    (       0,   0x000b), (       0,   0x0802),  //  55: 0000 0001 000x
    (       0,   0x0403), (       0,   0x000a),  //  56: 0000 0001 001x
    (       0,   0x0204), (       0,   0x0702),  //  57: 0000 0001 010x
    (       0,   0x1501), (       0,   0x1401),  //  58: 0000 0001 011x
    (       0,   0x0009), (       0,   0x1301),  //  59: 0000 0001 100x
    (       0,   0x1201), (       0,   0x0105),  //  60: 0000 0001 101x
    (       0,   0x0303), (       0,   0x0008),  //  61: 0000 0001 110x
    (       0,   0x0602), (       0,   0x1101),  //  62: 0000 0001 111x
    ( 78 << 1,        0), ( 79 << 1,        0),  //  63: 0000 0000 0001x
    ( 80 << 1,        0), ( 81 << 1,        0),  //  64: 0000 0000 0010x
    ( 82 << 1,        0), ( 83 << 1,        0),  //  65: 0000 0000 0011x
    ( 84 << 1,        0), ( 85 << 1,        0),  //  66: 0000 0000 0100x
    ( 86 << 1,        0), ( 87 << 1,        0),  //  67: 0000 0000 0101x
    ( 88 << 1,        0), ( 89 << 1,        0),  //  68: 0000 0000 0110x
    ( 90 << 1,        0), ( 91 << 1,        0),  //  69: 0000 0000 0111x
    (       0,   0x0a02), (       0,   0x0902),  //  70: 0000 0000 1000x
    (       0,   0x0503), (       0,   0x0304),  //  71: 0000 0000 1001x
    (       0,   0x0205), (       0,   0x0107),  //  72: 0000 0000 1010x
    (       0,   0x0106), (       0,   0x000f),  //  73: 0000 0000 1011x
    (       0,   0x000e), (       0,   0x000d),  //  74: 0000 0000 1100x
    (       0,   0x000c), (       0,   0x1a01),  //  75: 0000 0000 1101x
    (       0,   0x1901), (       0,   0x1801),  //  76: 0000 0000 1110x
    (       0,   0x1701), (       0,   0x1601),  //  77: 0000 0000 1111x
    ( 92 << 1,        0), ( 93 << 1,        0),  //  78: 0000 0000 0001 0x
    ( 94 << 1,        0), ( 95 << 1,        0),  //  79: 0000 0000 0001 1x
    ( 96 << 1,        0), ( 97 << 1,        0),  //  80: 0000 0000 0010 0x
    ( 98 << 1,        0), ( 99 << 1,        0),  //  81: 0000 0000 0010 1x
    (100 << 1,        0), (101 << 1,        0),  //  82: 0000 0000 0011 0x
    (102 << 1,        0), (103 << 1,        0),  //  83: 0000 0000 0011 1x
    (       0,   0x001f), (       0,   0x001e),  //  84: 0000 0000 0100 0x
    (       0,   0x001d), (       0,   0x001c),  //  85: 0000 0000 0100 1x
    (       0,   0x001b), (       0,   0x001a),  //  86: 0000 0000 0101 0x
    (       0,   0x0019), (       0,   0x0018),  //  87: 0000 0000 0101 1x
    (       0,   0x0017), (       0,   0x0016),  //  88: 0000 0000 0110 0x
    (       0,   0x0015), (       0,   0x0014),  //  89: 0000 0000 0110 1x
    (       0,   0x0013), (       0,   0x0012),  //  90: 0000 0000 0111 0x
    (       0,   0x0011), (       0,   0x0010),  //  91: 0000 0000 0111 1x
    (104 << 1,        0), (105 << 1,        0),  //  92: 0000 0000 0001 00x
    (106 << 1,        0), (107 << 1,        0),  //  93: 0000 0000 0001 01x
    (108 << 1,        0), (109 << 1,        0),  //  94: 0000 0000 0001 10x
    (110 << 1,        0), (111 << 1,        0),  //  95: 0000 0000 0001 11x
    (       0,   0x0028), (       0,   0x0027),  //  96: 0000 0000 0010 00x
    (       0,   0x0026), (       0,   0x0025),  //  97: 0000 0000 0010 01x
    (       0,   0x0024), (       0,   0x0023),  //  98: 0000 0000 0010 10x
    (       0,   0x0022), (       0,   0x0021),  //  99: 0000 0000 0010 11x
    (       0,   0x0020), (       0,   0x010e),  // 100: 0000 0000 0011 00x
    (       0,   0x010d), (       0,   0x010c),  // 101: 0000 0000 0011 01x
    (       0,   0x010b), (       0,   0x010a),  // 102: 0000 0000 0011 10x
    (       0,   0x0109), (       0,   0x0108),  // 103: 0000 0000 0011 11x
    (       0,   0x0112), (       0,   0x0111),  // 104: 0000 0000 0001 000x
    (       0,   0x0110), (       0,   0x010f),  // 105: 0000 0000 0001 001x
    (       0,   0x0603), (       0,   0x1002),  // 106: 0000 0000 0001 010x
    (       0,   0x0f02), (       0,   0x0e02),  // 107: 0000 0000 0001 011x
    (       0,   0x0d02), (       0,   0x0c02),  // 108: 0000 0000 0001 100x
    (       0,   0x0b02), (       0,   0x1f01),  // 109: 0000 0000 0001 101x
    (       0,   0x1e01), (       0,   0x1d01),  // 110: 0000 0000 0001 110x
    (       0,   0x1c01), (       0,   0x1b01),  // 111: 0000 0000 0001 111x
];

pub const VIDEO_MACROBLOCK_ADDRESS_INCREMENT: [(i16, i16); 80] = [
    (  1 << 1,    0), (       0,    1),  //   0: x
    (  2 << 1,    0), (  3 << 1,    0),  //   1: 0x
    (  4 << 1,    0), (  5 << 1,    0),  //   2: 00x
    (       0,    3), (       0,    2),  //   3: 01x
    (  6 << 1,    0), (  7 << 1,    0),  //   4: 000x
    (       0,    5), (       0,    4),  //   5: 001x
    (  8 << 1,    0), (  9 << 1,    0),  //   6: 0000x
    (       0,    7), (       0,    6),  //   7: 0001x
    ( 10 << 1,    0), ( 11 << 1,    0),  //   8: 0000 0x
    ( 12 << 1,    0), ( 13 << 1,    0),  //   9: 0000 1x
    ( 14 << 1,    0), ( 15 << 1,    0),  //  10: 0000 00x
    ( 16 << 1,    0), ( 17 << 1,    0),  //  11: 0000 01x
    ( 18 << 1,    0), ( 19 << 1,    0),  //  12: 0000 10x
    (       0,    9), (       0,    8),  //  13: 0000 11x
    (      -1,    0), ( 20 << 1,    0),  //  14: 0000 000x
    (      -1,    0), ( 21 << 1,    0),  //  15: 0000 001x
    ( 22 << 1,    0), ( 23 << 1,    0),  //  16: 0000 010x
    (       0,   15), (       0,   14),  //  17: 0000 011x
    (       0,   13), (       0,   12),  //  18: 0000 100x
    (       0,   11), (       0,   10),  //  19: 0000 101x
    ( 24 << 1,    0), ( 25 << 1,    0),  //  20: 0000 0001x
    ( 26 << 1,    0), ( 27 << 1,    0),  //  21: 0000 0011x
    ( 28 << 1,    0), ( 29 << 1,    0),  //  22: 0000 0100x
    ( 30 << 1,    0), ( 31 << 1,    0),  //  23: 0000 0101x
    ( 32 << 1,    0), (      -1,    0),  //  24: 0000 0001 0x
    (      -1,    0), ( 33 << 1,    0),  //  25: 0000 0001 1x
    ( 34 << 1,    0), ( 35 << 1,    0),  //  26: 0000 0011 0x
    ( 36 << 1,    0), ( 37 << 1,    0),  //  27: 0000 0011 1x
    ( 38 << 1,    0), ( 39 << 1,    0),  //  28: 0000 0100 0x
    (       0,   21), (       0,   20),  //  29: 0000 0100 1x
    (       0,   19), (       0,   18),  //  30: 0000 0101 0x
    (       0,   17), (       0,   16),  //  31: 0000 0101 1x
    (       0,   35), (      -1,    0),  //  32: 0000 0001 00x
    (      -1,    0), (       0,   34),  //  33: 0000 0001 11x
    (       0,   33), (       0,   32),  //  34: 0000 0011 00x
    (       0,   31), (       0,   30),  //  35: 0000 0011 01x
    (       0,   29), (       0,   28),  //  36: 0000 0011 10x
    (       0,   27), (       0,   26),  //  37: 0000 0011 11x
    (       0,   25), (       0,   24),  //  38: 0000 0100 00x
    (       0,   23), (       0,   22),  //  39: 0000 0100 01x
];

pub const VIDEO_ZIG_ZAG: [u8; 64] = [
     0,  1,  8, 16,  9,  2,  3, 10,
    17, 24, 32, 25, 18, 11,  4,  5,
    12, 19, 26, 33, 40, 48, 41, 34,
    27, 20, 13,  6,  7, 14, 21, 28,
    35, 42, 49, 56, 57, 50, 43, 36,
    29, 22, 15, 23, 30, 37, 44, 51,
    58, 59, 52, 45, 38, 31, 39, 46,
    53, 60, 61, 54, 47, 55, 62, 63
];

pub const VIDEO_INTRA_QUANT_MATRIX: [u8; 64] = [
     8, 16, 19, 22, 26, 27, 29, 34,
    16, 16, 22, 24, 27, 29, 34, 37,
    19, 22, 26, 27, 29, 34, 34, 38,
    22, 22, 26, 27, 29, 34, 37, 40,
    22, 26, 27, 29, 32, 35, 40, 48,
    26, 27, 29, 32, 35, 40, 48, 58,
    26, 27, 29, 34, 38, 46, 56, 69,
    27, 29, 35, 38, 46, 56, 69, 83
];

pub const VIDEO_PREMULTIPLIER_MATRIX: [i32; 64] = [
      32, 44, 42, 38, 32, 25, 17,  9,
      44, 62, 58, 52, 44, 35, 24, 12,
      42, 58, 55, 49, 42, 33, 23, 12,
      38, 52, 49, 44, 38, 30, 20, 10,
      32, 44, 42, 38, 32, 25, 17,  9,
      25, 35, 33, 30, 25, 20, 14,  7,
      17, 24, 23, 20, 17, 14,  9,  5,
      9, 12, 12, 10,  9,  7,  5,  2
];

/// Decoding of a code tree laid out as a flat table of `(branch, value)`
/// pairs, from the row whose first entry is `branch`, reading bits of `data`
/// from `pos`. A positive branch is twice the index of the child row, a zero
/// branch is a leaf holding its value, and a negative one an illegal code.
/// Yields the value and the position after the code.
pub open spec fn huffman_decode<S>(table: Seq<(i16, S)>, branch: int, data: Seq<u8>, pos: int) -> Result<(S, int), MpegError>
    decreases 0x8000 - branch,
{
    if pos < 0 || pos >= 8 * data.len() {
        Err(MpegError::UnexpectedEof)
    } else if branch < 0 || branch + bit_at(data, pos) >= table.len() {
        Err(MpegError::Format)
    } else {
        let idx = branch + bit_at(data, pos);
        let entry = table[idx];
        if entry.0 < 0 {
            Err(MpegError::Format)
        } else if entry.0 == 0 {
            Ok((entry.1, pos + 1))
        } else if entry.0 <= idx {
            // a child row must come after its parent
            Err(MpegError::Format)
        } else {
            huffman_decode(table, entry.0 as int, data, pos + 1)
        }
    }
}

pub proof fn lemma_huffman_advances<S>(table: Seq<(i16, S)>, branch: int, data: Seq<u8>, pos: int)
    ensures
        huffman_decode(table, branch, data, pos) matches Ok((_, p)) ==> pos < p <= 8 * data.len(),
    decreases 0x8000 - branch,
{
    if 0 <= pos < 8 * data.len() && 0 <= branch && branch + bit_at(data, pos) < table.len() {
        let idx = branch + bit_at(data, pos);
        let entry = table[idx];
        if entry.0 > idx {
            lemma_huffman_advances(table, entry.0 as int, data, pos + 1);
        }
    }
}

/// Reads one code word of the tree `table` and returns its value.
pub fn read_huffman<S: Copy>(table: &[(i16, S)], r: &mut BitReader) -> (res: Result<S, MpegError>)
    requires
        old(r).wf(),
    ensures
        final(r).pos >= old(r).pos,
        final(r).wf(),
        final(r).data@ == old(r).data@,
        match huffman_decode(table@, 0, old(r).data@, old(r).pos as int) {
            Ok((v, p)) => res == Ok::<S, MpegError>(v) && final(r).pos == p,
            Err(e) => res == Err::<S, MpegError>(e),
        },
{
    let mut branch: i16 = 0;
    loop
        invariant
            r.wf(),
            r.data@ == old(r).data@,
            r.pos >= old(r).pos,
            0 <= branch,
            huffman_decode(table@, 0, old(r).data@, old(r).pos as int)
                == huffman_decode(table@, branch as int, r.data@, r.pos as int),
        decreases 0x8000 - branch,
    {
        let bit = r.read_bit()?;
        let idx: usize = branch as usize + bit as usize;
        if idx >= table.len() {
            return Err(MpegError::Format);
        }
        let entry = table[idx];
        if entry.0 < 0 {
            return Err(MpegError::Format);
        } else if entry.0 == 0 {
            return Ok(entry.1);
        } else if entry.0 as usize <= idx {
            return Err(MpegError::Format);
        }
        branch = entry.0;
    }
}

/// Size in bits of a DC differential, from the luminance or chrominance tree.
pub fn parse_dct_dc_size(table: &[(i16, i16); 18], r: &mut BitReader) -> (res: Result<u8, MpegError>)
    requires
        old(r).wf(),
    ensures
        final(r).pos >= old(r).pos,
        final(r).wf(),
        final(r).data@ == old(r).data@,
        match huffman_decode(table@, 0, old(r).data@, old(r).pos as int) {
            Ok((v, p)) => if 0 <= v <= 255 {
                res == Ok::<u8, MpegError>(v as u8) && final(r).pos == p
            } else {
                res == Err::<u8, MpegError>(MpegError::Format)
            },
            Err(e) => res == Err::<u8, MpegError>(e),
        },
{
    let v = read_huffman(table.as_slice(), r)?;
    if 0 <= v && v <= 255 {
        Ok(v as u8)
    } else {
        Err(MpegError::Format)
    }
}

/// Macroblock type of an intra-coded picture: a `1` bit is plain intra
/// (`0b1_0000`), the bits `01` intra with a new quantizer scale (`0b1_0001`);
/// any other code is invalid in such a picture.
pub open spec fn macroblock_type(data: Seq<u8>, pos: int) -> Result<(u8, int), MpegError> {
    if pos >= 8 * data.len() {
        Err(MpegError::UnexpectedEof)
    } else if bit_at(data, pos) == 1 {
        Ok((0b1_0000u8, pos + 1))
    } else if pos + 1 >= 8 * data.len() {
        Err(MpegError::UnexpectedEof)
    } else if bit_at(data, pos + 1) == 1 {
        Ok((0b1_0001u8, pos + 2))
    } else {
        Err(MpegError::Format)
    }
}

pub fn parse_macroblock_type(r: &mut BitReader) -> (res: Result<u8, MpegError>)
    requires
        old(r).wf(),
    ensures
        final(r).pos >= old(r).pos,
        final(r).wf(),
        final(r).data@ == old(r).data@,
        match macroblock_type(old(r).data@, old(r).pos as int) {
            Ok((t, p)) => res == Ok::<u8, MpegError>(t) && final(r).pos == p,
            Err(e) => res == Err::<u8, MpegError>(e),
        },
{
    if r.read_bit()? == 1 {
        return Ok(0b1_0000);
    }
    if r.read_bit()? == 1 {
        return Ok(0b1_0001);
    }
    Err(MpegError::Format)
}

/// Macroblock address increment: code 34 is an escape that adds 33 and is
/// followed by another code, code 35 (stuffing) is not supported.
/// Yields the increment and the position after its codes.
pub open spec fn address_increment(data: Seq<u8>, pos: int) -> Result<(int, int), MpegError>
    decreases 8 * data.len() - pos,
{
    match huffman_decode(VIDEO_MACROBLOCK_ADDRESS_INCREMENT@, 0, data, pos) {
        Err(e) => Err(e),
        Ok((v, p)) => if v < 0 {
            Err(MpegError::Format)
        } else if v == 35 {
            Err(MpegError::Unsupported)
        } else if v == 34 {
            if p <= pos || p > 8 * data.len() {
                Err(MpegError::Format)
            } else {
                match address_increment(data, p) {
                    Ok((w, q)) => Ok((33 + w, q)),
                    Err(e) => Err(e),
                }
            }
        } else {
            Ok((v as int, p))
        },
    }
}

/// Reads a macroblock address increment; one larger than `max` is malformed.
pub fn parse_address_increment(r: &mut BitReader, max: u32) -> (res: Result<u32, MpegError>)
    requires
        old(r).wf(),
    ensures
        final(r).pos >= old(r).pos,
        final(r).wf(),
        final(r).data@ == old(r).data@,
        res matches Ok(v) ==> v <= max,
        match address_increment(old(r).data@, old(r).pos as int) {
            Ok((v, p)) => if v <= max {
                res == Ok::<u32, MpegError>(v as u32) && final(r).pos == p
            } else {
                res == Err::<u32, MpegError>(MpegError::Format)
            },
            Err(e) => res == Err::<u32, MpegError>(e),
        },
{
    let mut acc: u64 = 0;
    let ghost mut esc: int = 0;
    loop
        invariant
            r.wf(),
            r.data@ == old(r).data@,
            r.pos >= old(r).pos,
            esc >= 0,
            acc == 33 * esc || (acc > max && 33 * esc > max),
            acc <= max as u64 + 33,
            address_increment(old(r).data@, old(r).pos as int) == match address_increment(r.data@, r.pos as int) {
                Ok((w, q)) => Ok::<(int, int), MpegError>((33 * esc + w, q)),
                Err(e) => Err(e),
            },
        decreases r.len_bits() - r.pos,
    {
        let ghost pos0 = r.pos as int;
        proof {
            lemma_huffman_advances(VIDEO_MACROBLOCK_ADDRESS_INCREMENT@, 0, r.data@, pos0);
        }
        let v = read_huffman(VIDEO_MACROBLOCK_ADDRESS_INCREMENT.as_slice(), r)?;
        if v < 0 {
            return Err(MpegError::Format);
        } else if v == 35 {
            return Err(MpegError::Unsupported);
        } else if v == 34 {
            if acc <= max as u64 {
                acc = acc + 33;
            }
            proof {
                esc = esc + 1;
            }
        } else {
            if acc > max as u64 || acc + v as u64 > max as u64 {
                return Err(MpegError::Format);
            }
            return Ok((acc + v as u64) as u32);
        }
    }
}

/// One run/level pair of an intra block after its DC term, or the end of the block.
#[derive(Debug, Clone, Copy, PartialEq, Eq, Structural)]
pub enum Coefficient {
    EndOfBlock,
    Level { run: u8, level: i32 },
}

/// The signed 8-bit level of an escape code, with its one-byte extension.
pub open spec fn escape_level(first: int, second: int) -> int {
    if first == 0 {
        second
    } else if first == 128 {
        second - 256
    } else if first > 128 {
        first - 256
    } else {
        first
    }
}

/// The coefficient code at `pos`: after the code word, a `0` bit following
/// the word `0x0001` ends the block; the escape `0xffff` carries a 6-bit run and
/// an 8-bit level (16 bits where the first byte is 0 or 128); any other word
/// holds run and level in its two bytes and is followed by a sign bit.
pub open spec fn dct_coefficient(data: Seq<u8>, pos: int) -> Result<(Coefficient, int), MpegError> {
    let len = 8 * data.len();
    match huffman_decode(VIDEO_DCT_COEFF@, 0, data, pos) {
        Err(e) => Err(e),
        Ok((c, p)) => if c == 1 && p >= len {
            Err(MpegError::UnexpectedEof)
        } else if c == 1 && bit_at(data, p) == 0 {
            Ok((Coefficient::EndOfBlock, p + 1))
        } else {
            let q = if c == 1 { p + 1 } else { p };
            if c == 0xffff {
                if q + 14 > len {
                    Err(MpegError::UnexpectedEof)
                } else {
                    let run = bits_value(data, q, 6);
                    let first = bits_value(data, q + 6, 8) as int;
                    if first == 0 || first == 128 {
                        if q + 22 > len {
                            Err(MpegError::UnexpectedEof)
                        } else {
                            let second = bits_value(data, q + 14, 8) as int;
                            Ok((Coefficient::Level { run: run as u8, level: escape_level(first, second) as i32 }, q + 22))
                        }
                    } else {
                        Ok((Coefficient::Level { run: run as u8, level: escape_level(first, 0) as i32 }, q + 14))
                    }
                }
            } else if q >= len {
                Err(MpegError::UnexpectedEof)
            } else {
                let magnitude = (c % 256) as int;
                let level = if bit_at(data, q) == 1 { -magnitude } else { magnitude };
                Ok((Coefficient::Level { run: (c / 256) as u8, level: level as i32 }, q + 1))
            }
        },
    }
}

pub fn read_coefficient(r: &mut BitReader) -> (res: Result<Coefficient, MpegError>)
    requires
        old(r).wf(),
    ensures
        final(r).pos >= old(r).pos,
        final(r).wf(),
        final(r).data@ == old(r).data@,
        match dct_coefficient(old(r).data@, old(r).pos as int) {
            Ok((c, p)) => res == Ok::<Coefficient, MpegError>(c) && final(r).pos == p,
            Err(e) => res == Err::<Coefficient, MpegError>(e),
        },
        res matches Ok(Coefficient::Level { run, level }) ==> -256 <= level <= 255,
{
    let ghost data = r.data@;
    let c = read_huffman(VIDEO_DCT_COEFF.as_slice(), r)?;
    if c == 1 {
        if r.read_bit()? == 0 {
            return Ok(Coefficient::EndOfBlock);
        }
    }
    let ghost q = r.pos as int;
    if c == 0xffff {
        if r.remaining_bits() < 14 {
            return Err(MpegError::UnexpectedEof);
        }
        let run = r.read_bits(6)?;
        let first = r.read_bits(8)?;
        proof {
            crate::bits::lemma_bits_value_bound(data, q, 6);
            crate::bits::lemma_bits_value_bound(data, q + 6, 8);
            vstd::arithmetic::power2::lemma2_to64();
        }
        if first == 0 || first == 128 {
            let second = r.read_bits(8)?;
            proof {
                crate::bits::lemma_bits_value_bound(data, q + 14, 8);
            }
            let level: i32 = if first == 0 { second as i32 } else { second as i32 - 256 };
            Ok(Coefficient::Level { run: run as u8, level })
        } else {
            let level: i32 = if first > 128 { first as i32 - 256 } else { first as i32 };
            Ok(Coefficient::Level { run: run as u8, level })
        }
    } else {
        let magnitude: i32 = (c % 256) as i32;
        let sign = r.read_bit()?;
        let level: i32 = if sign == 1 { -magnitude } else { magnitude };
        Ok(Coefficient::Level { run: (c / 256) as u8, level })
    }
}

/// 2 to the power `n`.
fn pow2_u16(n: u8) -> (r: u16)
    requires
        n <= 15,
    ensures
        r == pow2(n as nat),
{
    let mut r: u16 = 1;
    let mut i: u8 = 0;
    proof {
        vstd::arithmetic::power2::lemma2_to64();
    }
    while i < n
        invariant
            i <= n <= 15,
            r == pow2(i as nat),
        decreases n - i,
    {
        proof {
            vstd::arithmetic::power2::lemma_pow2_unfold((i + 1) as nat);
            vstd::arithmetic::power2::lemma_pow2_strictly_increases((i + 1) as nat, 16);
            vstd::arithmetic::power2::lemma2_to64();
        }
        r = r * 2;
        i = i + 1;
    }
    r
}

/// The DC differential coded in `size` bits: the code itself where its top bit
/// is set, else `coded + 1 - 2^size`.
pub open spec fn dc_diff(coded: int, size: nat) -> int {
    if coded >= pow2((size - 1) as nat) {
        coded
    } else {
        coded + 1 - pow2(size)
    }
}

pub fn decode_dc_diff(coded: u8, size: u8) -> (r: i16)
    requires
        1 <= size <= 8,
        coded < pow2(size as nat),
    ensures
        r == dc_diff(coded as int, size as nat),
{
    let half = pow2_u16(size - 1);
    let full = pow2_u16(size);
    proof {
        vstd::arithmetic::power2::lemma_pow2_unfold(size as nat);
        vstd::arithmetic::power2::lemma2_to64();
        if size < 8 {
            vstd::arithmetic::power2::lemma_pow2_strictly_increases(size as nat, 8);
        }
    }
    if coded as u16 >= half {
        coded as i16
    } else {
        coded as i16 + 1 - full as i16
    }
}

pub proof fn lemma_address_increment_advances(data: Seq<u8>, pos: int)
    ensures
        address_increment(data, pos) matches Ok((v, p)) ==> pos < p && 0 <= v,
    decreases 8 * data.len() - pos,
{
    lemma_huffman_advances(VIDEO_MACROBLOCK_ADDRESS_INCREMENT@, 0, data, pos);
    match huffman_decode(VIDEO_MACROBLOCK_ADDRESS_INCREMENT@, 0, data, pos) {
        Ok((v, p)) => {
            if v == 34 && p > pos && p <= 8 * data.len() {
                lemma_address_increment_advances(data, p);
            }
        },
        Err(_) => {},
    }
}

} // verus!
