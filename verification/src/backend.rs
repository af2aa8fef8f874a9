//! The outside crates that do the image work, each behind a function whose
//! contract is believed, not proved.

use crate::raster::Image;
use vstd::prelude::*;

verus! {

/// Each sample above `level` becomes 255, every other sample 0.
pub open spec fn thresholded(pixels: Seq<u8>, level: u8) -> Seq<u8> {
    Seq::new(
        pixels.len(),
        |i: int|
            if pixels[i] > level {
                255u8
            } else {
                0u8
            },
    )
}

/// How many samples have the given value.
pub open spec fn count_of(pixels: Seq<u8>, value: u8) -> nat
    decreases pixels.len(),
{
    if pixels.len() == 0 {
        0
    } else {
        count_of(pixels.drop_last(), value) + if pixels.last() == value {
            1nat
        } else {
            0nat
        }
    }
}

/// The Otsu level of the image can be computed in 32 bits: the number of
/// pixels fits, and so does, for each intensity, the intensity times the
/// number of samples that have it.
pub open spec fn level_fits(pixels: Seq<u8>, width: u32, height: u32) -> bool {
    &&& width * height <= u32::MAX
    &&& forall|value: u8| value * #[trigger] count_of(pixels, value) <= u32::MAX
}

/// `level` is a level that `imageproc` may give for the image as its Otsu
/// level. Nothing says that there is only one: the level is chosen by
/// comparing floating-point values whose rounding is not fixed.
pub uninterp spec fn otsu_answer(pixels: Seq<u8>, width: u32, height: u32, level: u8) -> bool;

/// The samples that `image` computes for a copy of another size, with the
/// triangle filter.
pub uninterp spec fn resampled(
    pixels: Seq<u8>,
    width: u32,
    height: u32,
    new_width: u32,
    new_height: u32,
) -> Seq<u8>;

/// `imageproc::contrast::otsu_level` on the image. Of the level only this
/// is claimed: it is one that the function may give for these samples.
/// `level_fits` keeps its 32-bit arithmetic from overflowing: the product of
/// width and height, the counts of the histogram, and the products of an
/// intensity and its count.
#[verifier::external_body]
pub(crate) fn otsu_level(image: &Image) -> (level: u8)
    requires
        image.wf(),
        level_fits(image.data@, image.width, image.height),
    ensures
        otsu_answer(image.data@, image.width, image.height, level),
{
    let gray = image::GrayImage::from_raw(image.width, image.height, image.data.clone()).unwrap();
    imageproc::contrast::otsu_level(&gray)
}

/// `imageproc::contrast::threshold` with `ThresholdType::Binary`: a copy of
/// the same size in which a sample is 255 where it was above `level`, else 0.
#[verifier::external_body]
pub(crate) fn threshold(image: &Image, level: u8) -> (out: Image)
    requires
        image.wf(),
    ensures
        out.width == image.width,
        out.height == image.height,
        out.data@ == thresholded(image.data@, level),
{
    let gray = image::GrayImage::from_raw(image.width, image.height, image.data.clone()).unwrap();
    let out = imageproc::contrast::threshold(&gray, level, imageproc::contrast::ThresholdType::Binary);
    Image { width: out.width(), height: out.height(), data: out.into_raw() }
}

/// `image::imageops::resize` with `FilterType::Triangle`: a copy of the given
/// size, one sample for each of its pixels. The samples are a function of the
/// image and the new size; they are named, not stated. The bounds keep the
/// intermediate buffer, four 32-bit values for each pixel of `width` by
/// `new_height`, and the copy itself within what a vector can hold.
#[verifier::external_body]
pub(crate) fn resample(image: &Image, new_width: u32, new_height: u32) -> (out: Image)
    requires
        image.wf(),
        16 * (image.width * new_height) <= isize::MAX,
        new_width * new_height <= isize::MAX,
    ensures
        out.width == new_width,
        out.height == new_height,
        out.data@.len() == new_width * new_height,
        out.data@ == resampled(image.data@, image.width, image.height, new_width, new_height),
{
    let gray = image::GrayImage::from_raw(image.width, image.height, image.data.clone()).unwrap();
    let out = image::imageops::resize(&gray, new_width, new_height, image::imageops::FilterType::Triangle);
    Image { width: out.width(), height: out.height(), data: out.into_raw() }
}

} // verus!
