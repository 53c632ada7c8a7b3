//! A scaled inverse DCT in the style of ISO/IEC 23002-2, kept to cross-check
//! the primary transform.
use vstd::prelude::*;

use crate::idct::{as_ints, row};

verus! {

/// Multiplier-free products of the odd part: `y` by about 7/8, `z` by about 7/32.
pub open spec fn pmul1_spec(y: int) -> (int, int) {
    let y2 = y / 8 - y / 128;
    let y3 = y2 - y / 2048;
    (y - y2, y2 + y3 / 2)
}

pub open spec fn pmul2_spec(y: int) -> (int, int) {
    let y2 = y / 512 - y;
    (y2 / 4 - y2, y / 2)
}

pub open spec fn pmul3_spec(y: int) -> (int, int) {
    let y2 = y + y / 32;
    let y3 = y2 / 4;
    (y3 + y / 16, y2 - y3)
}

/// Each product stays within twice the bound of its argument.
proof fn lemma_pmul_bounds(y: int, m: int)
    requires
        64 <= m,
        -m <= y <= m,
    ensures
        -2 * m <= pmul1_spec(y).0 <= 2 * m,
        -2 * m <= pmul1_spec(y).1 <= 2 * m,
        -2 * m <= pmul2_spec(y).0 <= 2 * m,
        -2 * m <= pmul2_spec(y).1 <= 2 * m,
        -2 * m <= pmul3_spec(y).0 <= 2 * m,
        -2 * m <= pmul3_spec(y).1 <= 2 * m,
{
}

/// Floor division by `d`, the arithmetic right shift by `log2(d)`.
#[inline]
fn fdiv(x: i64, d: i64) -> (r: i64)
    requires
        d >= 2,
    ensures
        r == x as int / d as int,
{
    assert(i64::MIN <= x as int / d as int <= i64::MAX) by (nonlinear_arith)
        requires
            d >= 2,
            i64::MIN <= x <= i64::MAX,
    ;
    match x.checked_div_euclid(d) {
        Some(q) => q,
        None => 0,
    }
}

fn pmul_1(y: &mut i64, z: &mut i64)
    requires
        -0x100_0000_0000_0000 <= *old(y) <= 0x100_0000_0000_0000,
    ensures
        (*final(y) as int, *final(z) as int) == pmul1_spec(*old(y) as int),
{
    let y2: i64 = fdiv(*y, 8) - fdiv(*y, 128);
    let y3: i64 = y2 - fdiv(*y, 2048);
    *z = y2 + fdiv(y3, 2);
    *y = *y - y2;
}

fn pmul_2(y: &mut i64, z: &mut i64)
    requires
        -0x100_0000_0000_0000 <= *old(y) <= 0x100_0000_0000_0000,
    ensures
        (*final(y) as int, *final(z) as int) == pmul2_spec(*old(y) as int),
{
    let y2: i64 = fdiv(*y, 512) - *y;
    *z = fdiv(*y, 2);
    *y = fdiv(y2, 4) - y2;
}

fn pmul_3(y: &mut i64, z: &mut i64)
    requires
        -0x100_0000_0000_0000 <= *old(y) <= 0x100_0000_0000_0000,
    ensures
        (*final(y) as int, *final(z) as int) == pmul3_spec(*old(y) as int),
{
    let y2: i64 = *y + fdiv(*y, 32);
    let y3: i64 = fdiv(y2, 4);
    *y = y3 + fdiv(*y, 16);
    *z = y2 - y3;
}

/// The one-dimensional scaled transform of eight values.
pub open spec fn scaled_pass(v: Seq<int>) -> Seq<int> {
    let xa = v[1] + v[7];
    let xb = v[1] - v[7];
    let x1 = xa + v[3];
    let x3 = xa - v[3];
    let x7 = xb + v[5];
    let x5 = xb - v[5];
    let (x3, xa) = pmul1_spec(x3);
    let (x5, xb) = pmul1_spec(x5);
    let x3 = x3 - xb;
    let x5 = x5 + xa;
    let (x1, xa) = pmul2_spec(x1);
    let (x7, xb) = pmul2_spec(x7);
    let x1 = x1 + xb;
    let x7 = x7 - xa;
    let (x2, xa) = pmul3_spec(v[2]);
    let (x6, xb) = pmul3_spec(v[6]);
    let x2 = x2 - xb;
    let x6 = x6 + xa;
    let xa = v[0] + v[4];
    let xb = v[0] - v[4];
    let x0 = xa + x6;
    let x6 = xa - x6;
    let x4 = xb + x2;
    let x2 = xb - x2;
    seq![x0 + x1, x4 + x5, x2 + x3, x6 + x7, x6 - x7, x2 - x3, x4 - x5, x0 - x1]
}

/// Each output of a pass stays within 32 times the bound of its inputs.
#[verifier::rlimit(40)]
proof fn lemma_scaled_pass_bound(v: Seq<int>, m: int)
    requires
        v.len() == 8,
        64 <= m,
        forall|k: int| 0 <= k < 8 ==> -m <= #[trigger] v[k] <= m,
    ensures
        forall|k: int| 0 <= k < 8 ==> -32 * m <= #[trigger] scaled_pass(v)[k] <= 32 * m,
{
    let xa = v[1] + v[7];
    let xb = v[1] - v[7];
    let x1 = xa + v[3];
    let x3 = xa - v[3];
    let x7 = xb + v[5];
    let x5 = xb - v[5];
    lemma_pmul_bounds(x3, 3 * m);
    lemma_pmul_bounds(x5, 3 * m);
    lemma_pmul_bounds(x1, 3 * m);
    lemma_pmul_bounds(x7, 3 * m);
    lemma_pmul_bounds(v[2], m);
    lemma_pmul_bounds(v[6], m);
    let o3 = pmul1_spec(x3).0 - pmul1_spec(x5).1;
    let o5 = pmul1_spec(x5).0 + pmul1_spec(x3).1;
    let o1 = pmul2_spec(x1).0 + pmul2_spec(x7).1;
    let o7 = pmul2_spec(x7).0 - pmul2_spec(x1).1;
    let e2 = pmul3_spec(v[2]).0 - pmul3_spec(v[6]).1;
    let e6 = pmul3_spec(v[6]).0 + pmul3_spec(v[2]).1;
    assert(-12 * m <= o3 <= 12 * m && -12 * m <= o5 <= 12 * m && -12 * m <= o1 <= 12 * m && -12 * m <= o7 <= 12 * m);
    assert(-4 * m <= e2 <= 4 * m && -4 * m <= e6 <= 4 * m);
    let ya = v[0] + v[4];
    let yb = v[0] - v[4];
    let r = seq![ya + e6 + o1, yb + e2 + o5, yb - e2 + o3, ya - e6 + o7, ya - e6 - o7, yb - e2 - o3, yb + e2 - o5, ya + e6 - o1];
    assert(scaled_pass(v) =~= r);
}

/// `scaled_1d_idct` of row `i` of `b`, for each `i`, stored as column `i`.
pub open spec fn rows_to_columns(b: Seq<int>) -> Seq<int> {
    Seq::new(64, |j: int| scaled_pass(row(b, j % 8))[j / 8])
}

/// The 2D scale factors, applied before the passes.
pub const SCALE: [i64; 64] = [
    1024, 1138, 1730, 1609, 1024, 1609, 1730, 1138,
    1138, 1264, 1922, 1788, 1138, 1788, 1922, 1264,
    1730, 1922, 2923, 2718, 1730, 2718, 2923, 1922,
    1609, 1788, 2718, 2528, 1609, 2528, 2718, 1788,
    1024, 1138, 1730, 1609, 1024, 1609, 1730, 1138,
    1609, 1788, 2718, 2528, 1609, 2528, 2718, 1788,
    1730, 1922, 2923, 2718, 1730, 2718, 2923, 1922,
    1138, 1264, 1922, 1788, 1138, 1788, 1922, 1264,
];

/// Scaled coefficients, with the DC term biased for rounding.
pub open spec fn scaled_input(p: Seq<int>) -> Seq<int> {
    Seq::new(64, |k: int| SCALE[k] * p[k] + if k == 0 { 4096int } else { 0int })
}

/// The whole transform: scaling, the pass over rows twice (each storing its
/// results as columns), then a floor division by `2^13`.
pub open spec fn idct_23002_2_spec(p: Seq<int>) -> Seq<int> {
    let b = rows_to_columns(rows_to_columns(scaled_input(p)));
    Seq::new(64, |k: int| b[k] / 8192)
}

/// Largest coefficient magnitude the scaled transform accepts.
pub const SCALED_INPUT_LIMIT: i32 = 0x10_0000;

/// One scaled pass on eight values, computed without overflow.
#[verifier::rlimit(40)]
fn scaled_pass_exec(v: [i64; 8]) -> (r: [i64; 8])
    requires
        forall|k: int| 0 <= k < 8 ==> -0x100_0000_0000 <= #[trigger] v[k] <= 0x100_0000_0000,
    ensures
        r@.map_values(|x: i64| x as int) == scaled_pass(v@.map_values(|x: i64| x as int)),
{
    let ghost m: int = 0x100_0000_0000;
    let mut x1: i64 = v[1];
    let mut x3: i64 = v[3];
    let mut x5: i64 = v[5];
    let mut x7: i64 = v[7];
    let mut xa: i64 = x1 + x7;
    let mut xb: i64 = x1 - x7;
    x1 = xa + x3;
    x3 = xa - x3;
    x7 = xb + x5;
    x5 = xb - x5;
    proof {
        lemma_pmul_bounds(x3 as int, 3 * m);
        lemma_pmul_bounds(x5 as int, 3 * m);
        lemma_pmul_bounds(x1 as int, 3 * m);
        lemma_pmul_bounds(x7 as int, 3 * m);
        lemma_pmul_bounds(v[2] as int, m);
        lemma_pmul_bounds(v[6] as int, m);
    }
    pmul_1(&mut x3, &mut xa);
    pmul_1(&mut x5, &mut xb);
    x3 = x3 - xb;
    x5 = x5 + xa;
    pmul_2(&mut x1, &mut xa);
    pmul_2(&mut x7, &mut xb);
    x1 = x1 + xb;
    x7 = x7 - xa;
    let mut x0: i64 = v[0];
    let mut x2: i64 = v[2];
    let mut x4: i64 = v[4];
    let mut x6: i64 = v[6];
    pmul_3(&mut x2, &mut xa);
    pmul_3(&mut x6, &mut xb);
    x2 = x2 - xb;
    x6 = x6 + xa;
    xa = x0 + x4;
    xb = x0 - x4;
    x0 = xa + x6;
    x6 = xa - x6;
    x4 = xb + x2;
    x2 = xb - x2;
    let r = [x0 + x1, x4 + x5, x2 + x3, x6 + x7, x6 - x7, x2 - x3, x4 - x5, x0 - x1];
    assert(r@.map_values(|x: i64| x as int) =~= scaled_pass(v@.map_values(|x: i64| x as int)));
    r
}

/// The scaled transform of row `in_row` of `input`, written to column `out_col` of `out`.
#[verifier::rlimit(40)]
fn scaled_1d_idct(input: &[i64; 64], in_row: usize, out: &mut [i64; 64], out_col: usize)
    requires
        in_row < 8,
        out_col < 8,
        forall|k: int| 0 <= k < 8 ==> -0x100_0000_0000 <= #[trigger] input[in_row * 8 + k] <= 0x100_0000_0000,
    ensures
        forall|k: int| 0 <= k < 8 ==> #[trigger] final(out)[k * 8 + out_col] as int
            == scaled_pass(row(input@.map_values(|x: i64| x as int), in_row as int))[k],
        forall|r: int, c: int| 0 <= r < 8 && 0 <= c < 8 && c != out_col
            ==> #[trigger] final(out)[r * 8 + c] == old(out)[r * 8 + c],
{
    let base = in_row * 8;
    let v: [i64; 8] = [
        input[base], input[base + 1], input[base + 2], input[base + 3],
        input[base + 4], input[base + 5], input[base + 6], input[base + 7],
    ];
    assert(v@.map_values(|x: i64| x as int) =~= row(input@.map_values(|x: i64| x as int), in_row as int));
    assert forall|k: int| 0 <= k < 8 implies -0x100_0000_0000 <= #[trigger] v[k] <= 0x100_0000_0000 by {
        assert(v[k] == input[in_row * 8 + k]);
    }
    let r = scaled_pass_exec(v);
    out[out_col] = r[0];
    out[8 + out_col] = r[1];
    out[16 + out_col] = r[2];
    out[24 + out_col] = r[3];
    out[32 + out_col] = r[4];
    out[40 + out_col] = r[5];
    out[48 + out_col] = r[6];
    out[56 + out_col] = r[7];
    assert forall|k: int| 0 <= k < 8 implies #[trigger] out[k * 8 + out_col] as int
        == scaled_pass(row(input@.map_values(|x: i64| x as int), in_row as int))[k] by {
        assert(r@.map_values(|x: i64| x as int)[k] == r[k]);
    }
}

/// The scaled transform of a block of coefficients, in place.
pub fn idct_23002_2(p: &mut [i32; 64])
    requires
        forall|k: int| 0 <= k < 64 ==> -SCALED_INPUT_LIMIT <= #[trigger] old(p)[k] <= SCALED_INPUT_LIMIT,
    ensures
        as_ints(final(p)@) == idct_23002_2_spec(as_ints(old(p)@)),
{
    let ghost pin = as_ints(p@);
    let ghost s = scaled_input(pin);
    let mut block: [i64; 64] = [0i64; 64];
    let mut block2: [i64; 64] = [0i64; 64];
    let mut i: usize = 0;
    while i < 64
        invariant
            i <= 64,
            pin == as_ints(p@),
            s == scaled_input(pin),
            forall|k: int| 0 <= k < 64 ==> -SCALED_INPUT_LIMIT <= #[trigger] p[k] <= SCALED_INPUT_LIMIT,
            forall|k: int| 0 <= k < i ==> #[trigger] block[k] == SCALE[k] * pin[k],
            forall|k: int| 0 <= k < 64 ==> 0 <= #[trigger] SCALE[k] <= 2923,
        decreases 64 - i,
    {
        let f: i64 = SCALE[i];
        let x: i64 = p[i] as i64;
        assert(-2923 * 0x10_0000 <= f * x <= 2923 * 0x10_0000) by (nonlinear_arith)
            requires
                0 <= f <= 2923,
                -0x10_0000 <= x <= 0x10_0000,
        ;
        block[i] = f * x;
        i = i + 1;
    }
    block[0] = block[0] + 4096;
    let ghost m1: int = 0x1_0000_0000;
    assert forall|k: int| 0 <= k < 64 implies #[trigger] block[k] == s[k] && -m1 <= block[k] <= m1 by {
        assert(-2923 * 0x10_0000 <= SCALE[k] * pin[k] <= 2923 * 0x10_0000) by (nonlinear_arith)
            requires
                0 <= SCALE[k] <= 2923,
                -0x10_0000 <= pin[k] <= 0x10_0000,
        ;
    }
    let ghost b1 = block@.map_values(|x: i64| x as int);
    assert(b1 =~= s);
    let mut i: usize = 0;
    while i < 8
        invariant
            i <= 8,
            m1 == 0x1_0000_0000,
            block@.map_values(|x: i64| x as int) == s,
            forall|k: int| 0 <= k < 64 ==> -m1 <= #[trigger] block[k] <= m1,
            forall|r: int, c: int| 0 <= r < 8 && 0 <= c < i ==>
                #[trigger] block2[r * 8 + c] == scaled_pass(row(s, c))[r] && -32 * m1 <= block2[r * 8 + c] <= 32 * m1,
        decreases 8 - i,
    {
        assert forall|k: int| 0 <= k < 8 implies -0x100_0000_0000 <= #[trigger] block[i * 8 + k] <= 0x100_0000_0000 by {}
        let ghost prev = block2;
        scaled_1d_idct(&block, i, &mut block2, i);
        proof {
            assert(row(s, i as int).len() == 8);
            assert forall|k: int| 0 <= k < 8 implies -m1 <= #[trigger] row(s, i as int)[k] <= m1 by {
                assert(row(s, i as int)[k] == block[i * 8 + k]);
            }
            lemma_scaled_pass_bound(row(s, i as int), m1);
            assert forall|r: int, c: int| 0 <= r < 8 && 0 <= c < i + 1 implies
                #[trigger] block2[r * 8 + c] == scaled_pass(row(s, c))[r] && -32 * m1 <= block2[r * 8 + c] <= 32 * m1 by {
                if c != i {
                    assert(block2[r * 8 + c] == prev[r * 8 + c]);
                }
            }
        }
        i = i + 1;
    }
    let ghost t1 = rows_to_columns(s);
    assert forall|k: int| 0 <= k < 64 implies #[trigger] block2[k] == t1[k] && -32 * m1 <= block2[k] <= 32 * m1 by {
        let r = k / 8;
        let c = k % 8;
        assert(k == r * 8 + c);
        assert(block2[r * 8 + c] == scaled_pass(row(s, c))[r]);
    }
    assert(block2@.map_values(|x: i64| x as int) =~= t1);
    let ghost m2: int = 32 * m1;
    let mut i: usize = 0;
    while i < 8
        invariant
            i <= 8,
            m2 == 0x20_0000_0000,
            block2@.map_values(|x: i64| x as int) == t1,
            forall|k: int| 0 <= k < 64 ==> -m2 <= #[trigger] block2[k] <= m2,
            forall|r: int, c: int| 0 <= r < 8 && 0 <= c < i ==>
                #[trigger] block[r * 8 + c] == scaled_pass(row(t1, c))[r] && -32 * m2 <= block[r * 8 + c] <= 32 * m2,
        decreases 8 - i,
    {
        assert forall|k: int| 0 <= k < 8 implies -0x100_0000_0000 <= #[trigger] block2[i * 8 + k] <= 0x100_0000_0000 by {}
        let ghost prev = block;
        scaled_1d_idct(&block2, i, &mut block, i);
        proof {
            assert(row(t1, i as int).len() == 8);
            assert forall|k: int| 0 <= k < 8 implies -m2 <= #[trigger] row(t1, i as int)[k] <= m2 by {
                assert(row(t1, i as int)[k] == block2[i * 8 + k]);
            }
            lemma_scaled_pass_bound(row(t1, i as int), m2);
            assert forall|r: int, c: int| 0 <= r < 8 && 0 <= c < i + 1 implies
                #[trigger] block[r * 8 + c] == scaled_pass(row(t1, c))[r] && -32 * m2 <= block[r * 8 + c] <= 32 * m2 by {
                if c != i {
                    assert(block[r * 8 + c] == prev[r * 8 + c]);
                }
            }
        }
        i = i + 1;
    }
    let ghost t2 = rows_to_columns(t1);
    assert forall|k: int| 0 <= k < 64 implies #[trigger] block[k] == t2[k] && -32 * m2 <= block[k] <= 32 * m2 by {
        let r = k / 8;
        let c = k % 8;
        assert(k == r * 8 + c);
        assert(block[r * 8 + c] == scaled_pass(row(t1, c))[r]);
    }
    let mut i: usize = 0;
    while i < 64
        invariant
            i <= 64,
            m2 == 0x20_0000_0000,
            forall|k: int| 0 <= k < 64 ==> #[trigger] block[k] == t2[k] && -32 * m2 <= block[k] <= 32 * m2,
            forall|k: int| 0 <= k < i ==> #[trigger] p[k] as int == t2[k] / 8192,
        decreases 64 - i,
    {
        let q = fdiv(block[i], 8192);
        p[i] = q as i32;
        i = i + 1;
    }
    assert(as_ints(p@) =~= idct_23002_2_spec(pin));
}

} // verus!
