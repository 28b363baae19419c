//! Plain-text PPM image serialization: a "P3" header followed by one line
//! of three decimal channel values per pixel, rows top to bottom.

use vstd::prelude::*;

use crate::color::Color;
use crate::fx::{floor_div, SCALE};
use crate::vec3::V3;

verus! {

/// A channel value quantized to 8 bits: the floor of 255.999 times the
/// value, saturated into 0..=255 as a float-to-byte conversion would be.
pub open spec fn quantize_spec(c: int) -> int {
    let q = (c * 255999) / (1000 * (SCALE as int));
    if q < 0 {
        0
    } else if q > 255 {
        255
    } else {
        q
    }
}

/// The decimal digits of a nonnegative number, most significant first.
pub open spec fn dec_bytes(n: int) -> Seq<u8>
    decreases n,
{
    if n < 0 {
        Seq::empty()
    } else if n < 10 {
        seq![(48 + n) as u8]
    } else {
        dec_bytes(n / 10).push((48 + n % 10) as u8)
    }
}

/// One pixel's line: the three quantized channels separated by spaces,
/// ended by a newline.
pub open spec fn pixel_bytes(p: V3) -> Seq<u8> {
    dec_bytes(quantize_spec(p.x)) + seq![32u8] + dec_bytes(quantize_spec(p.y)) + seq![32u8]
        + dec_bytes(quantize_spec(p.z)) + seq![10u8]
}

/// The file header: the magic "P3", the image extents, and the maximum
/// channel value 255.
pub open spec fn header_bytes(w: int, h: int) -> Seq<u8> {
    seq![80u8, 51u8, 10u8] + dec_bytes(w) + seq![32u8] + dec_bytes(h) + seq![10u8] + dec_bytes(255)
        + seq![10u8]
}

/// The pixel lines of one row, from column `i` on.
pub open spec fn row_bytes(row: Seq<Color>, i: int) -> Seq<u8>
    decreases row.len() - i,
{
    if i < 0 || i >= row.len() {
        Seq::empty()
    } else {
        pixel_bytes(row[i]@) + row_bytes(row, i + 1)
    }
}

/// The pixel lines of all rows, from row `i` on.
pub open spec fn rows_bytes(image: Seq<Vec<Color>>, i: int) -> Seq<u8>
    decreases image.len() - i,
{
    if i < 0 || i >= image.len() {
        Seq::empty()
    } else {
        row_bytes(image[i]@, 0) + rows_bytes(image, i + 1)
    }
}

/// The whole serialized image.
pub open spec fn ppm_bytes(w: int, h: int, image: Seq<Vec<Color>>) -> Seq<u8> {
    header_bytes(w, h) + rows_bytes(image, 0)
}

/// A channel value of exactly 1 maps to 255, and 0 maps to 0.
pub proof fn lemma_quantize_endpoints()
    ensures
        quantize_spec(SCALE as int) == 255,
        quantize_spec(0) == 0,
{
}

/// Quantize one channel to a byte.
pub fn quantize(c: i128) -> (b: u8)
    requires
        -0x100000000000000 <= c <= 0x100000000000000,
    ensures
        b as int == quantize_spec(c as int),
{
    let q = floor_div(c * 255999, 1000 * SCALE);
    if q < 0 {
        0
    } else if q > 255 {
        255
    } else {
        q as u8
    }
}

/// Append the decimal digits of `n`.
pub fn push_decimal(n: u16, out: &mut Vec<u8>)
    ensures
        final(out)@ == old(out)@ + dec_bytes(n as int),
    decreases n,
{
    if n < 10 {
        out.push(48 + n as u8);
    } else {
        push_decimal(n / 10, out);
        out.push(48 + (n % 10) as u8);
    }
    proof {
        assert(out@ =~= old(out)@ + dec_bytes(n as int));
    }
}

/// Append one pixel's line: the three channels quantized to 0..=255,
/// separated by spaces, ended by a newline.
pub fn write_pixel(pixel: Color, out: &mut Vec<u8>)
    requires
        pixel@.in_lim(),
    ensures
        final(out)@ == old(out)@ + pixel_bytes(pixel@),
{
    let r = quantize(pixel.index(0));
    let g = quantize(pixel.index(1));
    let b = quantize(pixel.index(2));
    push_decimal(r as u16, out);
    out.push(32);
    push_decimal(g as u16, out);
    out.push(32);
    push_decimal(b as u16, out);
    out.push(10);
    proof {
        assert(out@ =~= old(out)@ + pixel_bytes(pixel@));
    }
}

/// Serialize the image: the header, then every pixel line, rows in the
/// order given (top of the image first).
pub fn write_ppm(image_width: u16, image_height: u16, image: Vec<Vec<Color>>) -> (out: Vec<u8>)
    requires
        forall|r: int, c: int|
            0 <= r < image@.len() && 0 <= c < image@[r]@.len() ==> (#[trigger] image@[r]@[c])@
                .in_lim(),
    ensures
        out@ == ppm_bytes(image_width as int, image_height as int, image@),
{
    let mut out: Vec<u8> = Vec::new();
    out.push(80);
    out.push(51);
    out.push(10);
    push_decimal(image_width, &mut out);
    out.push(32);
    push_decimal(image_height, &mut out);
    out.push(10);
    push_decimal(255, &mut out);
    out.push(10);
    proof {
        assert(dec_bytes(255) =~= seq![50u8, 53u8, 53u8]) by {
            reveal_with_fuel(dec_bytes, 4);
        }
        assert(out@ =~= header_bytes(image_width as int, image_height as int));
    }

    let n_rows = image.len();
    let mut r: usize = 0;
    while r < n_rows
        invariant
            n_rows == image@.len(),
            0 <= r <= n_rows,
            forall|rr: int, c: int|
                0 <= rr < image@.len() && 0 <= c < image@[rr]@.len() ==> (
                #[trigger] image@[rr]@[c])@.in_lim(),
            out@ + rows_bytes(image@, r as int) == ppm_bytes(
                image_width as int,
                image_height as int,
                image@,
            ),
        decreases n_rows - r,
    {
        let row = &image[r];
        let n_cols = row.len();
        let mut c: usize = 0;
        while c < n_cols
            invariant
                n_rows == image@.len(),
                0 <= r < n_rows,
                row@ == image@[r as int]@,
                n_cols == row@.len(),
                0 <= c <= n_cols,
                forall|rr: int, cc: int|
                    0 <= rr < image@.len() && 0 <= cc < image@[rr]@.len() ==> (
                    #[trigger] image@[rr]@[cc])@.in_lim(),
                out@ + row_bytes(row@, c as int) + rows_bytes(image@, r as int + 1) == ppm_bytes(
                    image_width as int,
                    image_height as int,
                    image@,
                ),
            decreases n_cols - c,
        {
            let ghost out_prev = out@;
            write_pixel(row[c], &mut out);
            proof {
                assert(out@ + row_bytes(row@, c as int + 1) + rows_bytes(image@, r as int + 1)
                    =~= out_prev + row_bytes(row@, c as int) + rows_bytes(image@, r as int + 1));
            }
            c = c + 1;
        }
        proof {
            assert(out@ + rows_bytes(image@, r as int + 1) =~= out@ + row_bytes(row@, n_cols as int)
                + rows_bytes(image@, r as int + 1));
        }
        r = r + 1;
    }
    proof {
        assert(out@ =~= out@ + rows_bytes(image@, n_rows as int));
    }
    out
}

} // verus!
