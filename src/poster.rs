//! Frames made from a still image (poster or cover art), with a fixed
//! black placeholder when no usable image is at hand.

use crate::color::{convert_rgb_to_yuv420sp_nv12, convertible, nv12_of};
use vstd::prelude::*;

verus! {

/// Width of the placeholder frame.
pub const PLACEHOLDER_WIDTH: u32 = 640;

/// Height of the placeholder frame.
pub const PLACEHOLDER_HEIGHT: u32 = 480;

/// Length of the placeholder frame: `640 * 480 * 3 / 2`.
pub const PLACEHOLDER_LEN: usize = 460800;

/// The pixels as packed 8-bit RGB, width and height of the image that
/// `data` encodes; `None` when it is not an image that can be decoded.
pub uninterp spec fn decoded_image_of(data: Seq<u8>) -> Option<(Seq<u8>, u32, u32)>;

/// Relies on image::load_from_memory (format guessed from the leading
/// bytes), then DynamicImage::to_rgb8 and ImageBuffer::into_raw, width and
/// height: the decoded pixels converted to packed 8-bit RGB, and the size.
/// Decoding depends on the bytes alone.
#[verifier::external_body]
fn decode_image(data: &[u8]) -> (r: Option<(Vec<u8>, u32, u32)>)
    ensures
        match r {
            None => decoded_image_of(data@) is None,
            Some(img) => decoded_image_of(data@) == Some((img.0@, img.1, img.2)),
        },
{
    image::load_from_memory(data).ok().map(|img| (img.to_rgb8().into_raw(), img.width(), img.height()))
}

/// Pixels that form a non-empty, even-sided, packed-RGB image.
pub open spec fn usable_rgb(pixels: Seq<u8>, width: u32, height: u32) -> bool {
    width > 0 && height > 0 && convertible(pixels, width as int, height as int, 3)
}

/// The placeholder frame: 640x480, every byte zero.
pub open spec fn is_placeholder(frame: (Vec<u8>, u32, u32)) -> bool {
    &&& frame.1 == PLACEHOLDER_WIDTH
    &&& frame.2 == PLACEHOLDER_HEIGHT
    &&& frame.0@.len() == PLACEHOLDER_LEN
    &&& forall|i: int| 0 <= i < frame.0@.len() ==> frame.0@[i] == 0u8
}

/// The frame made from packed RGB pixels: their NV12 image when they are
/// usable, otherwise the black 640x480 placeholder.
pub open spec fn frame_of_pixels(pixels: Seq<u8>, width: u32, height: u32) -> (Seq<u8>, u32, u32) {
    if usable_rgb(pixels, width, height) {
        (nv12_of(pixels, width as int, height as int, 3), width, height)
    } else {
        (Seq::new(PLACEHOLDER_LEN as nat, |i: int| 0u8), PLACEHOLDER_WIDTH, PLACEHOLDER_HEIGHT)
    }
}

/// A frame as plain values.
pub open spec fn frame_view(frame: (Vec<u8>, u32, u32)) -> (Seq<u8>, u32, u32) {
    (frame.0@, frame.1, frame.2)
}

/// A frame in NV12 layout: even, non-zero dimensions and a buffer of
/// exactly `width * height * 3 / 2` bytes.
pub open spec fn is_nv12_frame(frame: (Vec<u8>, u32, u32)) -> bool {
    &&& frame.1 > 0
    &&& frame.2 > 0
    &&& frame.1 % 2 == 0
    &&& frame.2 % 2 == 0
    &&& frame.0@.len() == frame.1 as int * frame.2 as int * 3 / 2
}

/// The black placeholder frame, 640x480.
pub fn placeholder_frame() -> (frame: (Vec<u8>, u32, u32))
    ensures
        is_placeholder(frame),
        is_nv12_frame(frame),
{
    let v: Vec<u8> = vec![0u8; PLACEHOLDER_LEN];
    (v, PLACEHOLDER_WIDTH, PLACEHOLDER_HEIGHT)
}

/// Builds a frame from packed RGB pixels, falling back to the placeholder
/// when they do not form a usable image.
pub fn frame_from_pixels(pixels: &[u8], width: u32, height: u32) -> (frame: (Vec<u8>, u32, u32))
    ensures
        frame_view(frame) == frame_of_pixels(pixels@, width, height),
        !usable_rgb(pixels@, width, height) ==> is_placeholder(frame),
        is_nv12_frame(frame),
{
    proof {
        assert(width as int * height as int <= 0xffff_ffff * 0xffff_ffff) by (nonlinear_arith)
            requires
                width <= 0xffff_ffff,
                height <= 0xffff_ffff,
        ;
    }
    let needed: u128 = width as u128 * height as u128 * 3;
    if width > 0 && height > 0 && width % 2 == 0 && height % 2 == 0 && needed <= pixels.len() as u128 {
        let v = convert_rgb_to_yuv420sp_nv12(pixels, width, height, 3);
        (v, width, height)
    } else {
        let r = placeholder_frame();
        assert(r.0@ =~= Seq::new(PLACEHOLDER_LEN as nat, |i: int| 0u8));
        r
    }
}

/// Builds a frame from an encoded still image (PNG, JPEG), read as packed
/// RGB; the placeholder when there is no image or it cannot be used.
pub fn frame_from_image_bytes(data: Option<&[u8]>) -> (frame: (Vec<u8>, u32, u32))
    ensures
        match data {
            None => is_placeholder(frame),
            Some(d) => match decoded_image_of(d@) {
                None => is_placeholder(frame),
                Some(img) => frame_view(frame) == frame_of_pixels(img.0, img.1, img.2),
            },
        },
        is_nv12_frame(frame),
{
    match data {
        None => placeholder_frame(),
        Some(bytes) => match decode_image(bytes) {
            None => placeholder_frame(),
            Some(img) => frame_from_pixels(img.0.as_slice(), img.1, img.2),
        },
    }
}

} // verus!
