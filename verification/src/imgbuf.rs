//! Trusted surface over `image`'s RGBA pixel buffer.
//!
//! The renderer populates an `image::RgbaImage`. Verus cannot take
//! `ImageBuffer`'s declaration (its `Pixel` bound), so the buffer sits in an
//! opaque struct of this crate. The uninterpreted function [`img_pixels`]
//! names its pixels as a map from coordinates to RGBA channels, and the
//! wrappers state what the two buffer operations the crate calls do to that
//! map, as the crate's documentation and source show.

use vstd::prelude::*;

verus! {

/// A populated RGBA pixel buffer, ready to be handed to an image sink. Holds
/// an `image::RgbaImage`; the field is public so that unverified callers can
/// inspect the pixels and write the buffer to a file.
#[verifier::external_body]
#[derive(Debug)]
pub struct PixelBuffer {
    pub inner: image::RgbaImage,
}

/// The pixels of a buffer: the channels `(red, green, blue, alpha)` at each
/// coordinate `(x, y)` of its `width × height` domain.
pub uninterp spec fn img_pixels(img: PixelBuffer) -> Map<(int, int), (u8, u8, u8, u8)>;

/// A `width × height` pixel map holding one color everywhere.
pub open spec fn pixel_fill(width: int, height: int, px: (u8, u8, u8, u8)) -> Map<
    (int, int),
    (u8, u8, u8, u8),
> {
    Map::new(|p: (int, int)| 0 <= p.0 < width && 0 <= p.1 < height, |p: (int, int)| px)
}

/// Relies on `image::RgbaImage::new`: a `width × height` buffer of zeroed
/// pixels, which panics only if the subpixel count overflows `usize`.
#[verifier::external_body]
pub(crate) fn image_new(width: u32, height: u32) -> (r: PixelBuffer)
    requires
        4 * (width as int) * (height as int) <= usize::MAX,
    ensures
        img_pixels(r) == pixel_fill(width as int, height as int, (0u8, 0u8, 0u8, 0u8)),
{
    PixelBuffer { inner: image::RgbaImage::new(width, height) }
}

/// Relies on `image::ImageBuffer::put_pixel`: replaces the pixel at `(x, y)`,
/// which must lie inside the buffer, and moves no other pixel.
#[verifier::external_body]
pub(crate) fn image_put(img: &mut PixelBuffer, x: u32, y: u32, px: (u8, u8, u8, u8))
    requires
        img_pixels(*old(img)).dom().contains((x as int, y as int)),
    ensures
        img_pixels(*final(img)) == img_pixels(*old(img)).insert((x as int, y as int), px),
{
    img.inner.put_pixel(x, y, image::Rgba([px.0, px.1, px.2, px.3]));
}

} // verus!
