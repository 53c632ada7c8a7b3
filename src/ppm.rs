//! The plain (ASCII) PPM encoding of packed RGB pictures.
use vstd::prelude::*;

verus! {

/// Decimal digits of `n` in ASCII, without leading zeros.
pub open spec fn decimal(n: nat) -> Seq<u8>
    decreases n,
{
    if n < 10 {
        seq![(48 + n) as u8]
    } else {
        decimal(n / 10) + seq![(48 + n % 10) as u8]
    }
}

/// The three components of the pixel starting at byte `i`, each followed by a space.
pub open spec fn pixel_text(b: Seq<u8>, i: int) -> Seq<u8> {
    decimal(b[i] as nat) + seq![32u8] + decimal(b[i + 1] as nat) + seq![32u8] + decimal(b[i + 2] as nat) + seq![32u8]
}

/// The first `n` pixels of row `r` of a picture `w` pixels wide.
pub open spec fn ppm_cols(b: Seq<u8>, w: int, r: int, n: int) -> Seq<u8>
    decreases n,
{
    if n <= 0 {
        seq![]
    } else {
        ppm_cols(b, w, r, n - 1) + pixel_text(b, (r * w + n - 1) * 3)
    }
}

/// The first `n` rows, each ended by a newline.
pub open spec fn ppm_rows(b: Seq<u8>, w: int, n: int) -> Seq<u8>
    decreases n,
{
    if n <= 0 {
        seq![]
    } else {
        ppm_rows(b, w, n - 1) + ppm_cols(b, w, n - 1, w) + seq![10u8]
    }
}

/// The whole file: the plain PPM magic number, the size, the largest value 255, then the pixels.
pub open spec fn ppm_bytes(w: int, h: int, b: Seq<u8>) -> Seq<u8> {
    seq![80u8, 51u8, 10u8] + decimal(w as nat) + seq![32u8] + decimal(h as nat) + seq![10u8, 50u8, 53u8, 53u8, 10u8]
        + ppm_rows(b, w, h)
}

/// Appends the decimal digits of `n`.
pub fn push_decimal(out: &mut Vec<u8>, n: u32)
    ensures
        final(out)@ == old(out)@ + decimal(n as nat),
    decreases n,
{
    if n >= 10 {
        push_decimal(out, n / 10);
    }
    out.push((48 + n % 10) as u8);
    assert(final(out)@ =~= old(out)@ + decimal(n as nat));
}

/// Appends the PPM file of the `width` by `height` picture `b` (packed RGB,
/// rows top to bottom) to `out`.
pub fn write_ppm(width: u16, height: u16, b: &Vec<u8>, out: &mut Vec<u8>)
    requires
        width as int * height as int * 3 <= b@.len(),
    ensures
        final(out)@ == old(out)@ + ppm_bytes(width as int, height as int, b@),
{
    out.push(80);
    out.push(51);
    out.push(10);
    push_decimal(out, width as u32);
    out.push(32);
    push_decimal(out, height as u32);
    out.push(10);
    out.push(50);
    out.push(53);
    out.push(53);
    out.push(10);
    let ghost head = out@;
    assert(head =~= old(out)@ + seq![80u8, 51u8, 10u8] + decimal(width as nat) + seq![32u8] + decimal(height as nat)
        + seq![10u8, 50u8, 53u8, 53u8, 10u8]);
    let w: usize = width as usize;
    let h: usize = height as usize;
    let blen: usize = b.len();
    let mut row: usize = 0;
    while row < h
        invariant
            row <= h,
            w == width,
            h == height,
            w * h * 3 <= b@.len(),
            blen == b@.len(),
            out@ == head + ppm_rows(b@, w as int, row as int),
        decreases h - row,
    {
        let ghost before = out@;
        let mut col: usize = 0;
        while col < w
            invariant
                col <= w,
                row < h,
                w * h * 3 <= b@.len(),
                blen == b@.len(),
                out@ == before + ppm_cols(b@, w as int, row as int, col as int),
            decreases w - col,
        {
            assert((row * w + col) * 3 + 3 <= w * h * 3 && row * w <= w * h) by (nonlinear_arith)
                requires
                    row < h,
                    col < w,
            ;
            let idx: usize = (row * w + col) * 3;
            let ghost mid = out@;
            push_decimal(out, b[idx] as u32);
            out.push(32);
            push_decimal(out, b[idx + 1] as u32);
            out.push(32);
            push_decimal(out, b[idx + 2] as u32);
            out.push(32);
            assert(out@ =~= mid + pixel_text(b@, idx as int));
            col = col + 1;
        }
        out.push(10);
        assert(out@ =~= head + ppm_rows(b@, w as int, row + 1));
        row = row + 1;
    }
}

} // verus!
