use vstd::prelude::*;

verus! {

/// Byte `c` (0 = red, 1 = green, 2 = blue, 3 = alpha) of the RGBA pixel at
/// column `x`, row `y` of a BGRA screen grab whose rows are `stride` bytes apart.
pub open spec fn rgba_byte(raw: Seq<u8>, stride: int, x: int, y: int, c: int) -> u8 {
    let base = stride * y + 4 * x;
    if c == 0 {
        raw[base + 2]
    } else if c == 1 {
        raw[base + 1]
    } else if c == 2 {
        raw[base]
    } else {
        255u8
    }
}

/// A BGRA grab of `height` rows holds `width` pixels per row when each of its
/// rows (`raw.len() / height` bytes) has room for `4 * width` bytes.
pub open spec fn fits_geometry(raw: Seq<u8>, width: int, height: int) -> bool {
    height > 0 && 4 * width <= raw.len() as int / height
}

/// The RGBA image, row after row, that a BGRA grab of the given geometry shows.
pub open spec fn rgba_of(raw: Seq<u8>, width: int, height: int) -> Seq<u8> {
    let stride = raw.len() as int / height;
    Seq::new(
        (4 * width * height) as nat,
        |i: int| rgba_byte(raw, stride, (i / 4) % width, (i / 4) / width, i % 4),
    )
}

proof fn lemma_pixel_index(width: int, x: int, y: int, c: int)
    requires
        0 <= x < width,
        0 <= y,
        0 <= c < 4,
    ensures
        ((4 * (width * y + x) + c) / 4) % width == x,
        ((4 * (width * y + x) + c) / 4) / width == y,
        (4 * (width * y + x) + c) % 4 == c,
{
    let p = width * y + x;
    vstd::arithmetic::div_mod::lemma_fundamental_div_mod_converse(4 * p + c, 4, p, c);
    vstd::arithmetic::div_mod::lemma_fundamental_div_mod_converse(p, width, y, x);
}

proof fn lemma_bounds(len: int, height: int, stride: int, width: int, x: int, y: int)
    requires
        height > 0,
        stride == len / height,
        len >= 0,
        4 * width <= stride,
        0 <= x < width,
        0 <= y < height,
    ensures
        stride * y + 4 * x + 3 < len,
        4 * width * height <= len,
        4 * (width * y + x) + 4 <= 4 * width * height,
{
    vstd::arithmetic::div_mod::lemma_fundamental_div_mod(len, height);
    assert(stride * height <= len) by (nonlinear_arith)
        requires stride == len / height, height > 0, len >= 0, len == height * (len / height) + len % height, len % height >= 0;
    assert(stride * y + stride <= stride * height) by (nonlinear_arith)
        requires y < height, stride >= 0;
    assert(4 * width * height <= stride * height) by (nonlinear_arith)
        requires 4 * width <= stride, height > 0;
    assert(width * (y + 1) <= width * height) by (nonlinear_arith)
        requires y + 1 <= height, width >= 0;
    assert(width * (y + 1) == width * y + width) by (nonlinear_arith);
    assert(4 * width * height == 4 * (width * height)) by (nonlinear_arith);
}

/// Turns a BGRA screen grab into an RGBA image of `width` by `height` pixels:
/// each pixel's blue and red bytes trade places and its alpha is opaque. Rows
/// of the grab are `raw.len() / height` bytes apart; bytes past `4 * width` in
/// a row are padding and are skipped.
pub fn bgra_to_rgba(raw: &[u8], width: usize, height: usize) -> (r: Vec<u8>)
    requires
        fits_geometry(raw@, width as int, height as int),
    ensures
        r@ == rgba_of(raw@, width as int, height as int),
{
    let n: usize = raw.len();
    let stride = n / height;
    let ghost len = n as int;
    proof {
        if width > 0 {
            lemma_bounds(len, height as int, stride as int, width as int, 0, 0);
        } else {
            assert(4 * width * height == 0) by (nonlinear_arith) requires width == 0;
        }
    }
    let mut out: Vec<u8> = Vec::new();
    let mut y: usize = 0;
    while y < height
        invariant
            fits_geometry(raw@, width as int, height as int),
            stride == raw@.len() as int / (height as int),
            len == raw@.len(),
            len == n,
            4 * width * height <= len,
            y <= height,
            out@.len() == 4 * (width * y),
            out@.len() <= 4 * width * height,
            forall|i: int|
                0 <= i < out@.len() ==> out@[i] == rgba_of(raw@, width as int, height as int)[i],
        decreases height - y,
    {
        let mut x: usize = 0;
        while x < width
            invariant
                fits_geometry(raw@, width as int, height as int),
                stride == raw@.len() as int / (height as int),
                len == raw@.len(),
                len == n,
                4 * width * height <= len,
                y < height,
                x <= width,
                out@.len() == 4 * (width * y + x),
                out@.len() <= 4 * width * height,
                forall|i: int|
                    0 <= i < out@.len() ==> out@[i] == rgba_of(raw@, width as int, height as int)[i],
            decreases width - x,
        {
            proof {
                lemma_bounds(len, height as int, stride as int, width as int, x as int, y as int);
                assert forall|c: int| 0 <= c < 4 implies
                    rgba_of(raw@, width as int, height as int)[4 * (width * y + x) + c]
                        == rgba_byte(raw@, stride as int, x as int, y as int, c) by {
                    lemma_pixel_index(width as int, x as int, y as int, c);
                }
            }
            assert((stride as int) * (y as int) + 4 * (x as int) + 3 < len);
            let i = stride * y + 4 * x;
            let ghost before = out@;
            out.push(raw[i + 2]);
            out.push(raw[i + 1]);
            out.push(raw[i]);
            out.push(255u8);
            proof {
                assert forall|k: int|
                    0 <= k < out@.len() implies out@[k] == rgba_of(raw@, width as int, height as int)[k] by {
                    if k >= before.len() {
                        let c = k - before.len();
                        assert(k == 4 * (width * y + x) + c);
                        assert(rgba_of(raw@, width as int, height as int)[k]
                            == rgba_byte(raw@, stride as int, x as int, y as int, c));
                        if c == 0 {
                            assert(out@[k] == raw@[i as int + 2]);
                        } else if c == 1 {
                            assert(out@[k] == raw@[i as int + 1]);
                        } else if c == 2 {
                            assert(out@[k] == raw@[i as int]);
                        }
                    }
                }
            }
            x = x + 1;
        }
        proof {
            assert(width * y + width == width * (y + 1)) by (nonlinear_arith);
        }
        y = y + 1;
    }
    proof {
        assert(4 * (width * height) == 4 * width * height) by (nonlinear_arith);
        assert(out@ =~= rgba_of(raw@, width as int, height as int));
    }
    out
}

} // verus!
