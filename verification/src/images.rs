//! RGB frames: conversion to RGBA for video output, and fitting a picture
//! into a frame of fixed size.

use vstd::prelude::*;
use crate::text::{chars_of, str_equal};

verus! {

/// An RGB picture: `width` times `height` pixels of three bytes, row by row.
pub struct RgbImage {
    pub width: u32,
    pub height: u32,
    pub data: Vec<u8>,
}

impl RgbImage {
    /// The data holds exactly three bytes per pixel.
    pub open spec fn wf(&self) -> bool {
        self.data@.len() == 3 * (self.width as int) * (self.height as int)
    }
}

/// The index of pixel `(x, y)` in a picture `w` pixels wide.
pub open spec fn pixel_index(w: int, x: int, y: int) -> int {
    y * w + x
}

// ---------------------------------------------------------------------------
// RGB to RGBA
// ---------------------------------------------------------------------------

/// RGBA bytes of RGB bytes: each pixel keeps its three colour bytes and
/// gets an opaque alpha byte 255.
pub open spec fn rgba_of(rgb: Seq<u8>, out: Seq<u8>) -> bool {
    &&& out.len() == 4 * (rgb.len() / 3)
    &&& forall|i: int, c: int|
        0 <= i < rgb.len() / 3 && 0 <= c < 3 ==> #[trigger] out[4 * i + c] == rgb[3 * i + c]
    &&& forall|i: int| 0 <= i < rgb.len() / 3 ==> #[trigger] out[4 * i + 3] == 255
}

/// The picture's pixels as RGBA bytes (see `rgba_of`), in the same order.
pub fn convert_rgb_to_rgba(image: &RgbImage) -> (r: Vec<u8>)
    requires
        image.wf(),
    ensures
        rgba_of(image.data@, r@),
{
    let dlen = image.data.len();
    let n = dlen / 3;
    let mut out: Vec<u8> = Vec::new();
    let mut i: usize = 0;
    while i < n
        invariant
            dlen == image.data@.len(),
            n == image.data@.len() / 3,
            i <= n,
            out@.len() == 4 * i,
            forall|j: int, c: int|
                0 <= j < i && 0 <= c < 3 ==> #[trigger] out@[4 * j + c] == image.data@[3 * j + c],
            forall|j: int| 0 <= j < i ==> #[trigger] out@[4 * j + 3] == 255,
        decreases n - i,
    {
        let ghost o0 = out@;
        out.push(image.data[3 * i]);
        out.push(image.data[3 * i + 1]);
        out.push(image.data[3 * i + 2]);
        out.push(255);
        assert forall|j: int, c: int| 0 <= j < i + 1 && 0 <= c < 3 implies #[trigger] out@[4 * j
            + c] == image.data@[3 * j + c] by {
            if j < i {
                assert(out@[4 * j + c] == o0[4 * j + c]);
            }
        }
        assert forall|j: int| 0 <= j < i + 1 implies #[trigger] out@[4 * j + 3] == 255 by {
            if j < i {
                assert(out@[4 * j + 3] == o0[4 * j + 3]);
            }
        }
        i = i + 1;
    }
    out
}

// ---------------------------------------------------------------------------
// Fitting a picture into a frame
// ---------------------------------------------------------------------------

/// Where a picture narrower than the frame is placed: at the left edge for
/// "left", at the right edge for "right", and centred otherwise.
pub open spec fn x_offset_for(position: Option<Seq<char>>, frame_width: int, width: int) -> int {
    if position == Some("left"@) {
        0
    } else if position == Some("right"@) {
        frame_width - width
    } else {
        (frame_width - width) / 2
    }
}

/// The colour byte `c` of frame pixel `(x, y)` when a picture is placed at
/// `(xo, yo)` on a black frame.
pub open spec fn placed_byte(
    picture: Seq<u8>,
    width: int,
    height: int,
    xo: int,
    yo: int,
    x: int,
    y: int,
    c: int,
) -> u8 {
    if xo <= x < xo + width && yo <= y < yo + height {
        picture[3 * pixel_index(width, x - xo, y - yo) + c]
    } else {
        0
    }
}

/// The characters of an optional string.
pub open spec fn opt_chars(o: Option<String>) -> Option<Seq<char>> {
    match o {
        Some(s) => Some(s@),
        None => None,
    }
}

proof fn lemma_index_bound(w: int, h: int, x: int, y: int)
    requires
        0 <= x < w,
        0 <= y < h,
    ensures
        0 <= pixel_index(w, x, y) < w * h,
        pixel_index(w, x, y) + 1 <= w * h,
{
    assert(y * w + x < w * h) by (nonlinear_arith)
        requires
            0 <= x < w,
            0 <= y < h,
    ;
    assert(0 <= y * w) by (nonlinear_arith)
        requires
            0 <= y,
            0 <= x < w,
    ;
}

/// Places a picture on a black frame of `frame_width` by `frame_height`
/// pixels: horizontally as `image_position` asks (see `x_offset_for`) and
/// vertically centred. The picture must fit in the frame.
pub fn place_on_frame(
    picture: &RgbImage,
    frame_width: u32,
    frame_height: u32,
    image_position: Option<String>,
) -> (r: RgbImage)
    requires
        picture.wf(),
        picture.width <= frame_width,
        picture.height <= frame_height,
        3 * (frame_width as int) * (frame_height as int) <= usize::MAX,
    ensures
        r.wf(),
        r.width == frame_width,
        r.height == frame_height,
        forall|x: int, y: int, c: int|
            0 <= x < frame_width && 0 <= y < frame_height && 0 <= c < 3 ==> #[trigger] r.data@[3
                * pixel_index(frame_width as int, x, y) + c] == placed_byte(
                picture.data@,
                picture.width as int,
                picture.height as int,
                x_offset_for(opt_chars(image_position), frame_width as int, picture.width as int),
                (frame_height as int - picture.height as int) / 2,
                x,
                y,
                c,
            ),
{
    let ghost pos = opt_chars(image_position);
    let w = picture.width;
    let h = picture.height;
    let xo: u32 = match &image_position {
        Some(p) => {
            if str_equal(p.as_str(), "left") {
                0
            } else if str_equal(p.as_str(), "right") {
                frame_width - w
            } else {
                (frame_width - w) / 2
            }
        },
        None => (frame_width - w) / 2,
    };
    assert(xo == x_offset_for(pos, frame_width as int, w as int)) by {
        reveal_strlit("left");
        reveal_strlit("right");
    }
    let yo: u32 = (frame_height - h) / 2;
    let fw = frame_width as usize;
    let fh = frame_height as usize;
    let pw = w as usize;
    let ph = h as usize;
    let dlen = picture.data.len();
    let mut out: Vec<u8> = Vec::new();
    let mut y: usize = 0;
    while y < fh
        invariant
            fw == frame_width,
            fh == frame_height,
            pw == w,
            ph == h,
            w == picture.width,
            h == picture.height,
            picture.wf(),
            w <= frame_width,
            h <= frame_height,
            xo as int + w as int <= frame_width,
            yo as int + h as int <= frame_height,
            3 * (frame_width as int) * (frame_height as int) <= usize::MAX,
            y <= fh,
            dlen == picture.data@.len(),
            out@.len() == 3 * pixel_index(fw as int, 0, y as int),
            forall|x0: int, y0: int, c: int|
                0 <= x0 < fw && 0 <= y0 < y && 0 <= c < 3 ==> #[trigger] out@[3 * pixel_index(
                    fw as int,
                    x0,
                    y0,
                ) + c] == placed_byte(
                    picture.data@,
                    w as int,
                    h as int,
                    xo as int,
                    yo as int,
                    x0,
                    y0,
                    c,
                ),
        decreases fh - y,
    {
        let mut x: usize = 0;
        let ghost row0 = out@;
        while x < fw
            invariant
                fw == frame_width,
                fh == frame_height,
                pw == w,
                ph == h,
                w == picture.width,
                h == picture.height,
                picture.wf(),
                xo as int + w as int <= frame_width,
                yo as int + h as int <= frame_height,
                3 * (frame_width as int) * (frame_height as int) <= usize::MAX,
                y < fh,
                x <= fw,
                dlen == picture.data@.len(),
                row0.len() == 3 * pixel_index(fw as int, 0, y as int),
                out@.len() == 3 * pixel_index(fw as int, x as int, y as int),
                forall|i: int| 0 <= i < row0.len() ==> #[trigger] out@[i] == row0[i],
                forall|x0: int, c: int|
                    0 <= x0 < x && 0 <= c < 3 ==> #[trigger] out@[3 * pixel_index(
                        fw as int,
                        x0,
                        y as int,
                    ) + c] == placed_byte(
                        picture.data@,
                        w as int,
                        h as int,
                        xo as int,
                        yo as int,
                        x0,
                        y as int,
                        c,
                    ),
            decreases fw - x,
        {
            let ghost o0 = out@;
            let inside = xo as usize <= x && x < xo as usize + pw && yo as usize <= y && y
                < yo as usize + ph;
            if inside {
                let px = x - xo as usize;
                let py = y - yo as usize;
                proof {
                    lemma_index_bound(pw as int, ph as int, px as int, py as int);
                    assert(3 * (pw as int) * (ph as int) == 3 * ((pw as int) * (ph as int))) by (nonlinear_arith);
                    assert((py as int) * (pw as int) + (px as int) < (pw as int) * (ph as int));
                    assert(0 <= (py as int) * (pw as int)) by (nonlinear_arith)
                        requires
                            0 <= py,
                            0 <= pw,
                    ;
                }
                let idx = 3 * (py * pw + px);
                out.push(picture.data[idx]);
                out.push(picture.data[idx + 1]);
                out.push(picture.data[idx + 2]);
            } else {
                out.push(0);
                out.push(0);
                out.push(0);
            }
            proof {
                assert(3 * pixel_index(fw as int, x as int + 1, y as int) == 3 * pixel_index(
                    fw as int,
                    x as int,
                    y as int,
                ) + 3);
                assert forall|i: int| 0 <= i < row0.len() implies #[trigger] out@[i] == row0[i] by {
                    assert(out@[i] == o0[i]);
                }
                assert forall|x0: int, c: int| 0 <= x0 < x + 1 && 0 <= c < 3 implies #[trigger] out@[3
                    * pixel_index(fw as int, x0, y as int) + c] == placed_byte(
                    picture.data@,
                    w as int,
                    h as int,
                    xo as int,
                    yo as int,
                    x0,
                    y as int,
                    c,
                ) by {
                    if x0 < x {
                        assert(out@[3 * pixel_index(fw as int, x0, y as int) + c] == o0[3
                            * pixel_index(fw as int, x0, y as int) + c]);
                    }
                }
            }
            x = x + 1;
        }
        proof {
            assert(pixel_index(fw as int, fw as int, y as int) == pixel_index(
                fw as int,
                0,
                y as int + 1,
            )) by (nonlinear_arith);
            assert forall|x0: int, y0: int, c: int|
                0 <= x0 < fw && 0 <= y0 < y + 1 && 0 <= c < 3 implies #[trigger] out@[3
                * pixel_index(fw as int, x0, y0) + c] == placed_byte(
                picture.data@,
                w as int,
                h as int,
                xo as int,
                yo as int,
                x0,
                y0,
                c,
            ) by {
                if y0 < y {
                    lemma_index_bound(fw as int, y as int, x0, y0);
                    assert((fw as int) * (y as int) == pixel_index(fw as int, 0, y as int)) by (nonlinear_arith);
                    assert(out@[3 * pixel_index(fw as int, x0, y0) + c] == row0[3 * pixel_index(
                        fw as int,
                        x0,
                        y0,
                    ) + c]);
                }
            }
        }
        y = y + 1;
    }
    proof {
        assert(3 * pixel_index(fw as int, 0, fh as int) == 3 * (frame_width as int) * (
        frame_height as int)) by (nonlinear_arith)
            requires
                fh == frame_height,
                fw == frame_width,
        ;
    }
    RgbImage { width: frame_width, height: frame_height, data: out }
}

// ---------------------------------------------------------------------------
// Scaling
// ---------------------------------------------------------------------------

/// Calls `image::imageops::resize` with `FilterType::Lanczos3` on the
/// picture. The crate's source gives a picture of the requested size, and an
/// unchanged copy when the size is the same. The resampled pixels of other
/// sizes are not stated: the filter weights come from `f32::sin`, whose
/// precision std leaves open. Of a picture without pixels the source reads a
/// pixel, and panics, unless the size is its own, the new height is zero, or
/// both the picture's width and the new width are zero; the other sizes are
/// left out, as is a result too large for memory.
#[verifier::external_body]
fn resize_lanczos3(picture: &RgbImage, new_width: u32, new_height: u32) -> (r: RgbImage)
    requires
        picture.wf(),
        resizable(picture.width, picture.height, new_width, new_height),
        3 * (new_width as int) * (new_height as int) <= usize::MAX,
    ensures
        r.wf(),
        r.width == new_width,
        r.height == new_height,
        (new_width == picture.width && new_height == picture.height) ==> r.data@ == picture.data@,
{
    let buf = image::ImageBuffer::<image::Rgb<u8>, Vec<u8>>::from_raw(
        picture.width,
        picture.height,
        picture.data.clone(),
    ).unwrap();
    let out = image::imageops::resize(&buf, new_width, new_height, image::imageops::FilterType::Lanczos3);
    RgbImage { width: out.width(), height: out.height(), data: out.into_raw() }
}

/// Whether a picture of `width` by `height` pixels can be resized to
/// `new_width` by `new_height`: it has pixels, or the size is its own, or the
/// new height is zero, or its width and the new width are both zero.
pub open spec fn resizable(width: u32, height: u32, new_width: u32, new_height: u32) -> bool {
    ||| (width > 0 && height > 0)
    ||| (new_width == width && new_height == height)
    ||| new_height == 0
    ||| (width == 0 && new_width == 0)
}

/// The frame size when both sizes are given and neither is zero.
pub open spec fn frame_size(new_width: Option<u32>, new_height: Option<u32>) -> Option<(u32, u32)> {
    match (new_width, new_height) {
        (Some(tw), Some(th)) => if tw > 0 && th > 0 {
            Some((tw, th))
        } else {
            None
        },
        _ => None,
    }
}

/// Scales a picture into a frame of `new_width` by `new_height` pixels,
/// keeping its aspect ratio: when both sizes are given and neither is zero,
/// the picture is resized to `scaled_size` (the aspect-preserving size, which
/// the caller computes in floating point) and placed on a black frame as
/// `place_on_frame` does, so that the frame is black outside the placed
/// rectangle and, when the scaled size is the picture's own, holds the
/// picture itself there; otherwise the picture is returned unchanged.
pub fn scale_image(
    image: RgbImage,
    new_width: Option<u32>,
    new_height: Option<u32>,
    image_position: Option<String>,
    scaled_size: (u32, u32),
) -> (r: RgbImage)
    requires
        image.wf(),
        frame_size(new_width, new_height) matches Some(size) ==> {
            let (tw, th) = size;
            &&& scaled_size.0 <= tw
            &&& scaled_size.1 <= th
            &&& 3 * (tw as int) * (th as int) <= usize::MAX
            &&& resizable(image.width, image.height, scaled_size.0, scaled_size.1)
        },
    ensures
        r.wf(),
        frame_size(new_width, new_height) is None ==> r == image,
        frame_size(new_width, new_height) matches Some(size) ==> {
            let (tw, th) = size;
            let (sw, sh) = scaled_size;
            let xo = x_offset_for(opt_chars(image_position), tw as int, sw as int);
            let yo = (th as int - sh as int) / 2;
            &&& r.width == tw
            &&& r.height == th
            &&& forall|x: int, y: int, c: int|
                0 <= x < tw && 0 <= y < th && 0 <= c < 3 && !(xo <= x < xo + sw && yo <= y < yo
                    + sh) ==> #[trigger] r.data@[3 * pixel_index(tw as int, x, y) + c] == 0
            &&& (sw == image.width && sh == image.height) ==> forall|x: int, y: int, c: int|
                0 <= x < tw && 0 <= y < th && 0 <= c < 3 ==> #[trigger] r.data@[3 * pixel_index(
                    tw as int,
                    x,
                    y,
                ) + c] == placed_byte(image.data@, sw as int, sh as int, xo, yo, x, y, c)
        },
{
    match (new_width, new_height) {
        (Some(tw), Some(th)) => {
            if tw == 0 || th == 0 {
                return image;
            }
            let (sw, sh) = scaled_size;
            assert(3 * (sw as int) * (sh as int) <= 3 * (tw as int) * (th as int)) by (nonlinear_arith)
                requires
                    sw <= tw,
                    sh <= th,
            ;
            let scaled = resize_lanczos3(&image, sw, sh);
            place_on_frame(&scaled, tw, th, image_position)
        },
        _ => image,
    }
}

} // verus!
