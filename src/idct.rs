//! The fixed-point inverse DCT applied to intra blocks, on premultiplied coefficients.
use vstd::prelude::*;

verus! {

/// The entries of `s` as mathematical integers.
pub open spec fn as_ints(s: Seq<i32>) -> Seq<int> {
    Seq::new(s.len(), |i: int| s[i] as int)
}

/// Column `c` of the 8x8 matrix `b`, stored row by row.
pub open spec fn column(b: Seq<int>, c: int) -> Seq<int> {
    Seq::new(8, |r: int| b[r * 8 + c])
}

/// Row `r` of the 8x8 matrix `b`, stored row by row.
pub open spec fn row(b: Seq<int>, r: int) -> Seq<int> {
    b.subrange(r * 8, r * 8 + 8)
}

/// The one-dimensional butterfly of the transform on eight values, before
/// any final rounding. Each product by a basis constant is rounded by `+128`
/// and a floor division by 256.
pub open spec fn idct_pass(v: Seq<int>) -> Seq<int> {
    let b1 = v[4];
    let b3 = v[2] + v[6];
    let b4 = v[5] - v[3];
    let tmp1 = v[1] + v[7];
    let tmp2 = v[3] + v[5];
    let b6 = v[1] - v[7];
    let b7 = tmp1 + tmp2;
    let m0 = v[0];
    let x4 = (b6 * 473 - b4 * 196 + 128) / 256 - b7;
    let x0 = x4 - ((tmp1 - tmp2) * 362 + 128) / 256;
    let x1 = m0 - b1;
    let x2 = ((v[2] - v[6]) * 362 + 128) / 256 - b3;
    let x3 = m0 + b1;
    let y3 = x1 + x2;
    let y4 = x3 + b3;
    let y5 = x1 - x2;
    let y6 = x3 - b3;
    let y7 = -x0 - (b4 * 473 + b6 * 196 + 128) / 256;
    seq![b7 + y4, x4 + y3, y5 - x0, y6 - y7, y6 + y7, x0 + y5, y3 - x4, y4 - b7]
}

/// The matrix after the column pass: each column transformed.
pub open spec fn idct_columns(b: Seq<int>) -> Seq<int> {
    Seq::new(64, |k: int| idct_pass(column(b, k % 8))[k / 8])
}

/// The two-dimensional transform: columns first, then each row, whose
/// results are rounded by `+128` and a floor division by 256.
pub open spec fn idct(b: Seq<int>) -> Seq<int> {
    Seq::new(64, |k: int| (idct_pass(row(idct_columns(b), k / 8))[k % 8] + 128) / 256)
}

/// Largest coefficient magnitude the transform accepts.
pub const IDCT_INPUT_LIMIT: i32 = 0x80_0000;

/// Floor division by 256.
#[inline]
fn shr8(x: i64) -> (r: i64)
    requires
        -0x100_0000_0000 <= x <= 0x100_0000_0000,
    ensures
        r == x / 256,
{
    let r = x >> 8u32;
    assert(r * 256 <= x && x < r * 256 + 256) by (bit_vector)
        requires
            r == x >> 8u32,
            -0x100_0000_0000 <= x <= 0x100_0000_0000,
    ;
    r
}

/// Each output of a pass is within 32 times the bound of its inputs.
#[verifier::rlimit(40)]
pub proof fn lemma_idct_pass_bound(v: Seq<int>, m: int)
    requires
        v.len() == 8,
        1 <= m,
        forall|k: int| 0 <= k < 8 ==> -m <= #[trigger] v[k] <= m,
    ensures
        forall|k: int| 0 <= k < 8 ==> -32 * m <= #[trigger] idct_pass(v)[k] <= 32 * m,
{
    let b4 = v[5] - v[3];
    let tmp1 = v[1] + v[7];
    let tmp2 = v[3] + v[5];
    let b6 = v[1] - v[7];
    let n1 = b6 * 473 - b4 * 196 + 128;
    let n2 = (tmp1 - tmp2) * 362 + 128;
    let n3 = (v[2] - v[6]) * 362 + 128;
    let n4 = b4 * 473 + b6 * 196 + 128;
    assert(-1338 * m <= n1 - 128 <= 1338 * m);
    assert(-1448 * m <= n2 - 128 <= 1448 * m);
    assert(-724 * m <= n3 - 128 <= 724 * m);
    assert(-1338 * m <= n4 - 128 <= 1338 * m);
    assert(-6 * m <= n1 / 256 <= 6 * m);
    assert(-6 * m <= n2 / 256 <= 6 * m);
    assert(-3 * m <= n3 / 256 <= 3 * m);
    assert(-6 * m <= n4 / 256 <= 6 * m);
}

/// One butterfly pass, computed without overflow.
#[verifier::rlimit(40)]
fn idct_1d(v: [i64; 8]) -> (r: [i64; 8])
    requires
        forall|k: int| 0 <= k < 8 ==> -0x1000_0000 <= #[trigger] v[k] <= 0x1000_0000,
    ensures
        r@.map_values(|x: i64| x as int) == idct_pass(v@.map_values(|x: i64| x as int)),
{
    let b1 = v[4];
    let b3 = v[2] + v[6];
    let b4 = v[5] - v[3];
    let tmp1 = v[1] + v[7];
    let tmp2 = v[3] + v[5];
    let b6 = v[1] - v[7];
    let b7 = tmp1 + tmp2;
    let m0 = v[0];
    let x4 = shr8(b6 * 473 - b4 * 196 + 128) - b7;
    let x0 = x4 - shr8((tmp1 - tmp2) * 362 + 128);
    let x1 = m0 - b1;
    let x2 = shr8((v[2] - v[6]) * 362 + 128) - b3;
    let x3 = m0 + b1;
    let y3 = x1 + x2;
    let y4 = x3 + b3;
    let y5 = x1 - x2;
    let y6 = x3 - b3;
    let y7 = -x0 - shr8(b4 * 473 + b6 * 196 + 128);
    let r = [b7 + y4, x4 + y3, y5 - x0, y6 - y7, y6 + y7, x0 + y5, y3 - x4, y4 - b7];
    assert(r@.map_values(|x: i64| x as int) =~= idct_pass(v@.map_values(|x: i64| x as int)));
    r
}

/// In-place two-dimensional inverse DCT of a block of premultiplied coefficients.
pub fn plm_video_idct(block: &mut [i32; 64])
    requires
        forall|k: int| 0 <= k < 64 ==> -IDCT_INPUT_LIMIT <= #[trigger] old(block)[k] <= IDCT_INPUT_LIMIT,
    ensures
        as_ints(final(block)@) == idct(as_ints(old(block)@)),
{
    let ghost b = as_ints(block@);
    let ghost m1: int = IDCT_INPUT_LIMIT as int;
    assert(m1 == 0x80_0000);
    let mut tmp: [i64; 64] = [0i64; 64];
    let mut i: usize = 0;
    while i < 8
        invariant
            i <= 8,
            m1 == 0x80_0000,
            b == as_ints(block@),
            forall|k: int| 0 <= k < 64 ==> -m1 <= #[trigger] block[k] <= m1,
            forall|r: int, c: int| 0 <= r < 8 && 0 <= c < i ==>
                #[trigger] tmp[r * 8 + c] == idct_pass(column(b, c))[r] && -32 * m1 <= tmp[r * 8 + c] <= 32 * m1,
        decreases 8 - i,
    {
        let v: [i64; 8] = [
            block[i] as i64, block[8 + i] as i64, block[16 + i] as i64, block[24 + i] as i64,
            block[32 + i] as i64, block[40 + i] as i64, block[48 + i] as i64, block[56 + i] as i64,
        ];
        assert(v@.map_values(|x: i64| x as int) =~= column(b, i as int));
        assert forall|k: int| 0 <= k < 8 implies -m1 <= #[trigger] v[k] <= m1 by {
            assert(v[k] == block[k * 8 + i]);
        }
        let out = idct_1d(v);
        proof {
            lemma_idct_pass_bound(column(b, i as int), m1);
            assert forall|k: int| 0 <= k < 8 implies out[k] == idct_pass(column(b, i as int))[k] by {
                assert(out@.map_values(|x: i64| x as int)[k] == out[k]);
            }
        }
        tmp[i] = out[0];
        tmp[8 + i] = out[1];
        tmp[16 + i] = out[2];
        tmp[24 + i] = out[3];
        tmp[32 + i] = out[4];
        tmp[40 + i] = out[5];
        tmp[48 + i] = out[6];
        tmp[56 + i] = out[7];
        proof {
            assert forall|r: int, c: int| 0 <= r < 8 && 0 <= c < i + 1 implies
                #[trigger] tmp[r * 8 + c] == idct_pass(column(b, c))[r] && -32 * m1 <= tmp[r * 8 + c] <= 32 * m1 by {
                if c == i {
                    assert(tmp[r * 8 + c] == out[r]);
                }
            }
        }
        i = i + 1;
    }
    let ghost cols = idct_columns(b);
    assert forall|k: int| 0 <= k < 64 implies #[trigger] tmp[k] == cols[k] && -32 * m1 <= tmp[k] <= 32 * m1 by {
        let r = k / 8;
        let c = k % 8;
        assert(k == r * 8 + c);
        assert(tmp[r * 8 + c] == idct_pass(column(b, c))[r]);
    }
    let ghost m2: int = 32 * m1;
    let mut j: usize = 0;
    while j < 8
        invariant
            j <= 8,
            m2 == 0x1000_0000,
            cols.len() == 64,
            forall|k: int| 0 <= k < 64 ==> #[trigger] tmp[k] == cols[k] && -m2 <= tmp[k] <= m2,
            forall|r: int, c: int| 0 <= r < j && 0 <= c < 8 ==>
                #[trigger] block[r * 8 + c] as int == (idct_pass(row(cols, r))[c] + 128) / 256,
        decreases 8 - j,
    {
        let base: usize = j * 8;
        let v: [i64; 8] = [
            tmp[base], tmp[base + 1], tmp[base + 2], tmp[base + 3],
            tmp[base + 4], tmp[base + 5], tmp[base + 6], tmp[base + 7],
        ];
        assert forall|k: int| 0 <= k < 8 implies #[trigger] v[k] == cols[j * 8 + k] && -m2 <= v[k] <= m2 by {
            assert(v[k] == tmp[j * 8 + k]);
        }
        assert(v@.map_values(|x: i64| x as int) =~= row(cols, j as int));
        let out = idct_1d(v);
        proof {
            lemma_idct_pass_bound(row(cols, j as int), m2);
            assert forall|k: int| 0 <= k < 8 implies out[k] == idct_pass(row(cols, j as int))[k] && -32 * m2 <= out[k] <= 32 * m2 by {
                assert(out@.map_values(|x: i64| x as int)[k] == out[k]);
            }
        }
        block[base] = shr8(out[0] + 128) as i32;
        block[base + 1] = shr8(out[1] + 128) as i32;
        block[base + 2] = shr8(out[2] + 128) as i32;
        block[base + 3] = shr8(out[3] + 128) as i32;
        block[base + 4] = shr8(out[4] + 128) as i32;
        block[base + 5] = shr8(out[5] + 128) as i32;
        block[base + 6] = shr8(out[6] + 128) as i32;
        block[base + 7] = shr8(out[7] + 128) as i32;
        proof {
            assert forall|r: int, c: int| 0 <= r < j + 1 && 0 <= c < 8 implies
                #[trigger] block[r * 8 + c] as int == (idct_pass(row(cols, r))[c] + 128) / 256 by {
                if r == j {
                    assert(block[r * 8 + c] as int == (out[c] + 128) / 256);
                }
            }
        }
        j = j + 1;
    }
    assert(as_ints(block@) =~= idct(b)) by {
        assert forall|k: int| 0 <= k < 64 implies #[trigger] as_ints(block@)[k] == idct(b)[k] by {
            let r = k / 8;
            let c = k % 8;
            assert(k == r * 8 + c);
            assert(block[r * 8 + c] as int == (idct_pass(row(cols, r))[c] + 128) / 256);
        }
    }
}

} // verus!
