//! Frame buffers: rows read back with padding, received frames converted to
//! RGBA8, and the names of rendered frame files.
use vstd::prelude::*;
use crate::text::{decimal, push_decimal};

verus! {

/// Bytes per row of a read-back buffer for `width` RGBA8 pixels: rows are
/// padded to a multiple of 256 bytes.
pub open spec fn padded_row_spec(width: nat) -> nat {
    ((width * 4 + 255) / 256 * 256) as nat
}

/// `(width * 4).div_ceil(256) * 256`.
pub fn padded_row(width: u32) -> (r: u32)
    requires
        width * 4 <= 0xffff_ff00,
    ensures
        r == padded_row_spec(width as nat),
        r >= width * 4,
        r % 256 == 0,
{
    (width * 4 + 255) / 256 * 256
}

/// The first `n` rows of `len` bytes, rows `stride` bytes apart, packed.
pub open spec fn rows(data: Seq<u8>, stride: nat, len: nat, n: nat) -> Seq<u8>
    decreases n,
{
    if n == 0 {
        Seq::empty()
    } else {
        rows(data, stride, len, (n - 1) as nat) + data.subrange(
            (n - 1) * stride,
            (n - 1) * stride + len as int,
        )
    }
}

proof fn lemma_row_fits(stride: nat, len: nat, y: nat, h: nat)
    requires
        y < h,
    ensures
        y * stride + len <= (h - 1) * stride + len,
{
    assert(y * stride <= (h - 1) * stride) by (nonlinear_arith)
        requires
            y <= h - 1,
    ;
}

/// The tightly packed RGBA8 rows, top row first, of a buffer whose rows are
/// `padded_row` bytes apart; the bytes of every row must be there.
pub fn unpad_rows(data: &[u8], width: u32, height: u32, padded_row: u32) -> (r: Vec<u8>)
    requires
        height == 0 || (height - 1) * padded_row + width * 4 <= data@.len(),
    ensures
        r@ == rows(data@, padded_row as nat, (width * 4) as nat, height as nat),
{
    if height == 0 {
        return Vec::new();
    }
    assert(width * 4 <= data.len()) by {
        assert(0 <= (height - 1) * (padded_row as int)) by (nonlinear_arith)
            requires
                height > 0,
        ;
    }
    let len = width as usize * 4;
    let stride = padded_row as usize;
    let mut out: Vec<u8> = Vec::new();
    let mut y: usize = 0;
    while y < height as usize
        invariant
            y <= height,
            len == width * 4,
            stride == padded_row,
            height > 0,
            (height - 1) * stride + len <= data@.len(),
            out@ == rows(data@, stride as nat, len as nat, y as nat),
        decreases height - y,
    {
        proof {
            lemma_row_fits(stride as nat, len as nat, y as nat, height as nat);
            assert(y * stride + len <= data.len());
        }
        let start = y * stride;
        let mut k: usize = 0;
        let ghost before = out@;
        while k < len
            invariant
                k <= len,
                start + len <= data.len(),
                out@ == before + data@.subrange(start as int, start + k),
            decreases len - k,
        {
            out.push(data[start + k]);
            k = k + 1;
            assert(out@ =~= before + data@.subrange(start as int, start + k));
        }
        y = y + 1;
        assert(out@ == rows(data@, stride as nat, len as nat, y as nat));
    }
    out
}

// ---------------------------------------------------------------- received frames
/// The RGBA8 quad of one received pixel `px`: blue and red swapped when the
/// source is BGR, alpha 255 when it is opaque.
pub open spec fn rgba_of(px: Seq<u8>, bgr: bool, opaque: bool) -> Seq<u8> {
    let (r, g, b) = if bgr {
        (px[2], px[1], px[0])
    } else {
        (px[0], px[1], px[2])
    };
    seq![r, g, b, if opaque { 255u8 } else { px[3] }]
}

/// Converted pixels `0..n` of `row`.
pub open spec fn row_rgba(row: Seq<u8>, n: nat, bgr: bool, opaque: bool) -> Seq<u8>
    decreases n,
{
    if n == 0 {
        Seq::empty()
    } else {
        row_rgba(row, (n - 1) as nat, bgr, opaque) + rgba_of(
            row.subrange(4 * (n - 1), 4 * n as int),
            bgr,
            opaque,
        )
    }
}

/// Converted rows `0..n` of a `width`-pixel frame whose rows are `stride`
/// bytes apart.
pub open spec fn frame_rgba(
    data: Seq<u8>,
    stride: nat,
    width: nat,
    n: nat,
    bgr: bool,
    opaque: bool,
) -> Seq<u8>
    decreases n,
{
    if n == 0 {
        Seq::empty()
    } else {
        frame_rgba(data, stride, width, (n - 1) as nat, bgr, opaque) + row_rgba(
            data.subrange((n - 1) * stride, (n - 1) * stride + 4 * width),
            width,
            bgr,
            opaque,
        )
    }
}

/// A received frame as tightly packed RGBA8, top row first. `bgr` frames
/// (BGRA, BGRX) have red and blue swapped back; opaque ones (RGBX, BGRX)
/// get an alpha of 255. The bytes of every row must be there.
pub fn frame_to_rgba(
    data: &[u8],
    width: u32,
    height: u32,
    stride: usize,
    bgr: bool,
    opaque: bool,
) -> (r: Vec<u8>)
    requires
        height == 0 || (height - 1) * stride + width * 4 <= data@.len(),
    ensures
        r@ == frame_rgba(data@, stride as nat, width as nat, height as nat, bgr, opaque),
{
    if height == 0 {
        return Vec::new();
    }
    assert(width * 4 <= data.len()) by {
        assert(0 <= (height - 1) * (stride as int)) by (nonlinear_arith)
            requires
                height > 0,
        ;
    }
    let len = width as usize * 4;
    let mut out: Vec<u8> = Vec::new();
    let mut y: usize = 0;
    while y < height as usize
        invariant
            y <= height,
            len == width * 4,
            height > 0,
            (height - 1) * stride + len <= data@.len(),
            out@ == frame_rgba(data@, stride as nat, width as nat, y as nat, bgr, opaque),
        decreases height - y,
    {
        proof {
            lemma_row_fits(stride as nat, len as nat, y as nat, height as nat);
            assert(y * stride + len <= data.len());
        }
        let start = y * stride;
        let ghost row = data@.subrange(start as int, start + len);
        let ghost before = out@;
        let mut x: usize = 0;
        while x < width as usize
            invariant
                x <= width,
                len == width * 4,
                start + len <= data.len(),
                row == data@.subrange(start as int, start + len),
                out@ == before + row_rgba(row, x as nat, bgr, opaque),
            decreases width - x,
        {
            let p = start + 4 * x;
            let (r, g, b) = if bgr {
                (data[p + 2], data[p + 1], data[p])
            } else {
                (data[p], data[p + 1], data[p + 2])
            };
            let a = if opaque {
                255u8
            } else {
                data[p + 3]
            };
            let ghost o = out@;
            out.push(r);
            out.push(g);
            out.push(b);
            out.push(a);
            proof {
                let px = row.subrange(4 * x, 4 * x + 4);
                assert(px[0] == data@[p as int] && px[1] == data@[p + 1] && px[2] == data@[p + 2]
                    && px[3] == data@[p + 3]);
                assert(out@ =~= o + rgba_of(px, bgr, opaque));
            }
            x = x + 1;
        }
        y = y + 1;
    }
    out
}

// ---------------------------------------------------------------- file names
/// `n` written with at least `w` digits, zeros in front.
pub open spec fn zero_padded(n: nat, w: nat) -> Seq<char> {
    let d = decimal(n);
    if d.len() >= w {
        d
    } else {
        Seq::new((w - d.len()) as nat, |i: int| '0') + d
    }
}

/// The file of frame `f` in a rendered sequence: `frame00042.png`.
pub open spec fn frame_file_spec(f: nat) -> Seq<char> {
    seq!['f', 'r', 'a', 'm', 'e'] + zero_padded(f, 5) + seq!['.', 'p', 'n', 'g']
}

/// `format!("frame{f:05}.png")`.
pub fn frame_file_name(f: u32) -> (r: String)
    ensures
        r@ == frame_file_spec(f as nat),
{
    let mut digits: Vec<char> = Vec::new();
    push_decimal(&mut digits, f as u128);
    assert(digits@ =~= decimal(f as nat));
    let mut out: Vec<char> = vec!['f', 'r', 'a', 'm', 'e'];
    let ghost head = out@;
    let mut pad: usize = 0;
    let fill: usize = if digits.len() < 5 {
        5 - digits.len()
    } else {
        0
    };
    while pad < fill
        invariant
            pad <= fill,
            out@ == head + Seq::new(pad as nat, |i: int| '0'),
        decreases fill - pad,
    {
        out.push('0');
        pad = pad + 1;
        assert(out@ =~= head + Seq::new(pad as nat, |i: int| '0'));
    }
    let ghost padded = out@;
    let mut k: usize = 0;
    while k < digits.len()
        invariant
            k <= digits.len(),
            out@ == padded + digits@.take(k as int),
        decreases digits.len() - k,
    {
        out.push(digits[k]);
        k = k + 1;
        assert(out@ =~= padded + digits@.take(k as int));
    }
    assert(digits@.take(digits.len() as int) =~= digits@);
    out.push('.');
    out.push('p');
    out.push('n');
    out.push('g');
    proof {
        let d = decimal(f as nat);
        if d.len() >= 5 {
            assert(Seq::new(0nat, |i: int| '0') + d =~= d);
        }
        assert(out@ =~= frame_file_spec(f as nat));
    }
    crate::text::string_of(&out)
}

} // verus!
