//! Packed RGB(A) to NV12 (4:2:0 semi-planar) conversion.

use vstd::prelude::*;

verus! {

/// Saturates an integer to the 0..=255 range of a byte.
pub open spec fn clamp_spec(v: int) -> u8 {
    if v < 0 {
        0
    } else if v > 255 {
        255
    } else {
        v as u8
    }
}

/// Luma of one pixel: `(77 R + 150 G + 29 B + 128) >> 8`, saturated.
/// An arithmetic shift by 8 is floor division by 256.
pub open spec fn luma_spec(r: int, g: int, b: int) -> u8 {
    clamp_spec((77 * r + 150 * g + 29 * b + 128) / 256)
}

/// Blue-difference chroma of one pixel.
pub open spec fn chroma_u_spec(r: int, g: int, b: int) -> u8 {
    clamp_spec((-43 * r - 84 * g + 127 * b + 128) / 256 + 128)
}

/// Red-difference chroma of one pixel.
pub open spec fn chroma_v_spec(r: int, g: int, b: int) -> u8 {
    clamp_spec((127 * r - 106 * g - 21 * b + 128) / 256 + 128)
}

/// Red, green and blue of pixel `p` of a packed image with `bpp` bytes per pixel.
pub open spec fn red(img: Seq<u8>, bpp: int, p: int) -> int {
    img[p * bpp] as int
}

pub open spec fn green(img: Seq<u8>, bpp: int, p: int) -> int {
    img[p * bpp + 1] as int
}

pub open spec fn blue(img: Seq<u8>, bpp: int, p: int) -> int {
    img[p * bpp + 2] as int
}

pub open spec fn luma_at(img: Seq<u8>, bpp: int, p: int) -> u8 {
    luma_spec(red(img, bpp, p), green(img, bpp, p), blue(img, bpp, p))
}

pub open spec fn chroma_u_at(img: Seq<u8>, bpp: int, p: int) -> u8 {
    chroma_u_spec(red(img, bpp, p), green(img, bpp, p), blue(img, bpp, p))
}

pub open spec fn chroma_v_at(img: Seq<u8>, bpp: int, p: int) -> u8 {
    chroma_v_spec(red(img, bpp, p), green(img, bpp, p), blue(img, bpp, p))
}

/// The pixel whose colour stands for chroma sample `m` of a `width`-wide image:
/// the top-left pixel of the `m`-th 2x2 block in row-major order.
pub open spec fn chroma_source(width: int, m: int) -> int {
    2 * (m / (width / 2)) * width + 2 * (m % (width / 2))
}

/// Dimensions and a buffer that the converter accepts: even sides, and at
/// least `bpp` bytes for every pixel, of which the first three are R, G, B.
pub open spec fn convertible(img: Seq<u8>, width: int, height: int, bpp: int) -> bool {
    &&& width % 2 == 0
    &&& height % 2 == 0
    &&& bpp >= 3
    &&& img.len() >= width * height * bpp
}

/// The NV12 image of a packed RGB image: `width * height` luma bytes in
/// row-major order, then one (U, V) pair per 2x2 block in row-major order
/// over the half-resolution grid.
pub open spec fn nv12_of(img: Seq<u8>, width: int, height: int, bpp: int) -> Seq<u8> {
    let n = width * height;
    Seq::new(
        (n + n / 2) as nat,
        |k: int|
            if k < n {
                luma_at(img, bpp, k)
            } else if (k - n) % 2 == 0 {
                chroma_u_at(img, bpp, chroma_source(width, (k - n) / 2))
            } else {
                chroma_v_at(img, bpp, chroma_source(width, (k - n) / 2))
            },
    )
}

/// Saturates a value to a byte.
pub fn clamp(val: i32) -> (r: u8)
    ensures
        r == clamp_spec(val as int),
{
    if val < 0 {
        0
    } else if val > 255 {
        255
    } else {
        val as u8
    }
}

proof fn lemma_shr8_is_floor_div(x: i32)
    requires
        -1_000_000 <= x <= 1_000_000,
    ensures
        (x >> 8u32) as int == (x as int) / 256,
{
    let q = x >> 8u32;
    let r = x & 255i32;
    assert(q * 256i32 + r == x && 0 <= r < 256 && -4000 <= q <= 4000) by (bit_vector)
        requires
            -1_000_000 <= x <= 1_000_000,
            q == x >> 8u32,
            r == x & 255i32,
    ;
}


proof fn lemma_chroma_source_bounds(width: int, height: int, m: int)
    requires
        width > 0,
        width % 2 == 0,
        height % 2 == 0,
        0 <= m < (width * height) / 4,
    ensures
        0 <= chroma_source(width, m),
        chroma_source(width, m) < width * height,
        m / (width / 2) < height / 2,
{
    let hw = width / 2;
    let hh = height / 2;
    let row = m / hw;
    let col = m % hw;
    assert(width * height == 4 * (hw * hh)) by (nonlinear_arith)
        requires
            width == 2 * hw,
            height == 2 * hh,
    ;
    assert((width * height) / 4 == hw * hh);
    assert(m == hw * row + col && 0 <= col < hw) by (nonlinear_arith)
        requires
            hw > 0,
            row == m / hw,
            col == m % hw,
    ;
    assert(row >= 0) by (nonlinear_arith)
        requires
            hw > 0,
            m >= 0,
            row == m / hw,
    ;
    assert(row < hh) by (nonlinear_arith)
        requires
            hw > 0,
            m == hw * row + col,
            0 <= col,
            m < hw * hh,
    ;
    assert(2 * row * width + 2 * col < width * height) by (nonlinear_arith)
        requires
            width == 2 * hw,
            height == 2 * hh,
            0 <= row < hh,
            0 <= col < hw,
    ;
    assert(0 <= 2 * row * width) by (nonlinear_arith)
        requires
            width > 0,
            row >= 0,
    ;
}

proof fn lemma_pixel_in_buffer(p: int, n: int, bpp: int, len: int)
    requires
        0 <= p < n,
        bpp >= 3,
        len >= n * bpp,
    ensures
        0 <= p * bpp,
        p * bpp + 2 < len,
{
    assert(0 <= p * bpp && p * bpp + bpp <= n * bpp) by (nonlinear_arith)
        requires
            0 <= p < n,
            bpp >= 3,
    ;
}

/// Luma of the pixel at byte offset `base`.
fn pixel_luma(img: &[u8], base: usize) -> (y: u8)
    requires
        base + 2 < img@.len(),
    ensures
        y == luma_spec(img@[base as int] as int, img@[base + 1] as int, img@[base + 2] as int),
{
    let r = img[base] as i32;
    let g = img[base + 1] as i32;
    let b = img[base + 2] as i32;
    let x = 77 * r + 150 * g + 29 * b + 128;
    proof {
        lemma_shr8_is_floor_div(x);
    }
    clamp(x >> 8)
}

/// Chroma pair (U, V) of the pixel at byte offset `base`.
fn pixel_chroma(img: &[u8], base: usize) -> (uv: (u8, u8))
    requires
        base + 2 < img@.len(),
    ensures
        uv.0 == chroma_u_spec(img@[base as int] as int, img@[base + 1] as int, img@[base + 2] as int),
        uv.1 == chroma_v_spec(img@[base as int] as int, img@[base + 1] as int, img@[base + 2] as int),
{
    let r = img[base] as i32;
    let g = img[base + 1] as i32;
    let b = img[base + 2] as i32;
    let xu = -43 * r - 84 * g + 127 * b + 128;
    let xv = 127 * r - 106 * g - 21 * b + 128;
    proof {
        lemma_shr8_is_floor_div(xu);
        lemma_shr8_is_floor_div(xv);
    }
    (clamp((xu >> 8) + 128), clamp((xv >> 8) + 128))
}

/// Converts a packed RGB image (`bytes_per_pixel` bytes per pixel, the first
/// three being red, green and blue) of even dimensions to NV12: the luma
/// plane, then the interleaved (U, V) plane with one pair per 2x2 block,
/// sampled at the block's top-left pixel.
pub fn convert_rgb_to_yuv420sp_nv12(img: &[u8], width: u32, height: u32, bytes_per_pixel: usize) -> (yuv: Vec<u8>)
    requires
        convertible(img@, width as int, height as int, bytes_per_pixel as int),
    ensures
        yuv@ == nv12_of(img@, width as int, height as int, bytes_per_pixel as int),
        yuv@.len() == width as int * height as int * 3 / 2,
{
    let w = width as usize;
    let h = height as usize;
    let bpp = bytes_per_pixel;
    let len = img.len();
    let ghost n = w as int * h as int;
    proof {
        assert(0 <= n <= n * bpp && (w == 0 ==> n == 0)) by (nonlinear_arith)
            requires
                n == w as int * h as int,
                w >= 0,
                h >= 0,
                bpp >= 3,
        ;
        assert(img@.len() >= n * bpp);
        assert(n <= len);
        assert(n + n / 2 <= n * bpp) by (nonlinear_arith)
            requires
                n >= 0,
                bpp >= 3,
        ;
    }
    let frame_size: usize = w * h;
    let mut yuv: Vec<u8> = Vec::with_capacity(frame_size + frame_size / 2);
    let mut index: usize = 0;
    while index < frame_size
        invariant
            frame_size == n,
            n == w as int * h as int,
            n <= img@.len(),
            len == img@.len(),
            img@.len() >= n * bpp,
            bpp >= 3,
            index <= frame_size,
            yuv@.len() == index,
            forall|k: int| 0 <= k < index ==> yuv@[k] == luma_at(img@, bpp as int, k),
        decreases frame_size - index,
    {
        proof {
            lemma_pixel_in_buffer(index as int, n, bpp as int, img@.len() as int);
        }
        let y = pixel_luma(img, index * bpp);
        yuv.push(y);
        index += 1;
    }
    let half_width: usize = w / 2;
    let chroma_count: usize = frame_size / 4;
    let mut m: usize = 0;
    while m < chroma_count
        invariant
            frame_size == n,
            chroma_count == n / 4,
            half_width == w / 2,
            n == w as int * h as int,
            w == 0 ==> n == 0,
            n <= img@.len(),
            len == img@.len(),
            img@.len() >= n * bpp,
            bpp >= 3,
            w % 2 == 0,
            h % 2 == 0,
            m <= chroma_count,
            yuv@.len() == n + 2 * m,
            forall|k: int| 0 <= k < n ==> yuv@[k] == luma_at(img@, bpp as int, k),
            forall|q: int|
                0 <= q < m ==> {
                    &&& yuv@[n + 2 * q] == chroma_u_at(img@, bpp as int, chroma_source(w as int, q))
                    &&& yuv@[n + 2 * q + 1] == chroma_v_at(img@, bpp as int, chroma_source(w as int, q))
                },
        decreases chroma_count - m,
    {
        proof {
            lemma_chroma_source_bounds(w as int, h as int, m as int);
            lemma_pixel_in_buffer(chroma_source(w as int, m as int), n, bpp as int, img@.len() as int);
        }
        let p = 2 * (m / half_width) * w + 2 * (m % half_width);
        let uv = pixel_chroma(img, p * bpp);
        yuv.push(uv.0);
        yuv.push(uv.1);
        m += 1;
    }
    proof {
        let hw = w as int / 2;
        let hh = h as int / 2;
        assert(n == 4 * (hw * hh)) by (nonlinear_arith)
            requires
                w as int == 2 * hw,
                h as int == 2 * hh,
                n == w as int * h as int,
        ;
        assert(n * 3 / 2 == n + n / 2);
        assert forall|k: int| 0 <= k < n + n / 2 implies yuv@[k] == nv12_of(img@, w as int, h as int, bpp as int)[k] by {
            if k >= n {
                let q = (k - n) / 2;
                assert(k == n + 2 * q || k == n + 2 * q + 1);
            }
        }
        assert(yuv@ =~= nv12_of(img@, w as int, h as int, bpp as int));
    }
    yuv
}


/// A black image, whatever its dimensions, has zero luma everywhere and
/// mid-range (128) chroma in every sample.
pub proof fn lemma_black_frame(img: Seq<u8>, width: int, height: int, bpp: int)
    requires
        convertible(img, width, height, bpp),
        width >= 0,
        height >= 0,
        forall|p: int|
            0 <= p < width * height ==> red(img, bpp, p) == 0 && green(img, bpp, p) == 0
                && blue(img, bpp, p) == 0,
    ensures
        nv12_of(img, width, height, bpp).len() == width * height * 3 / 2,
        forall|k: int| 0 <= k < width * height ==> #[trigger] nv12_of(img, width, height, bpp)[k] == 0,
        forall|k: int|
            width * height <= k < width * height * 3 / 2 ==> #[trigger] nv12_of(img, width, height, bpp)[k]
                == 128,
{
    let n = width * height;
    assert(n >= 0) by (nonlinear_arith)
        requires
            width >= 0,
            height >= 0,
            n == width * height,
    ;
    let a = width / 2;
    let b = height / 2;
    assert(n == 4 * (a * b)) by (nonlinear_arith)
        requires
            width == 2 * a,
            height == 2 * b,
            n == width * height,
    ;
    assert(n * 3 / 2 == n + n / 2);
    assert(luma_spec(0, 0, 0) == 0);
    assert(chroma_u_spec(0, 0, 0) == 128);
    assert(chroma_v_spec(0, 0, 0) == 128);
    assert forall|k: int| n <= k < n * 3 / 2 implies #[trigger] nv12_of(img, width, height, bpp)[k] == 128 by {
        let m = (k - n) / 2;
        assert(0 <= m < n / 4);
        lemma_chroma_source_bounds(width, height, m);
    }
}

} // verus!
