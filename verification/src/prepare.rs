//! What is done to an image before a decoder sees it: binarization at the
//! Otsu level, and scaling down by a factor.

use crate::backend::{
    count_of, level_fits, otsu_answer, otsu_level, resample, resampled, threshold, thresholded,
};
use crate::geometry::Scale;
use crate::raster::{Image, Raster};
use vstd::prelude::*;

verus! {

/// `out` is a two-level copy of `r`: of the same size, with each sample
/// above a level turned to 255 and every other sample to 0, the level being
/// one that came back as the Otsu level of `r`.
pub open spec fn is_binarized(r: Raster, out: Raster) -> bool {
    exists|level: u8| #[trigger]
        otsu_answer(r.pixels, r.width, r.height, level) && out == (Raster {
            width: r.width,
            height: r.height,
            pixels: thresholded(r.pixels, level),
        })
}

/// A two-level copy has the size of the image, and each of its samples is 0
/// or 255.
pub proof fn lemma_binarized_two_level(r: Raster, out: Raster)
    requires
        is_binarized(r, out),
    ensures
        out.width == r.width,
        out.height == r.height,
        out.pixels.len() == r.pixels.len(),
        forall|i: int| 0 <= i < out.pixels.len() ==> out.pixels[i] == 0 || out.pixels[i] == 255,
{
}

/// The number of samples of each value, from 0 to 255.
pub fn histogram(data: &Vec<u8>) -> (counts: Vec<u64>)
    ensures
        counts.len() == 256,
        forall|value: u8| counts[value as int] == #[trigger] count_of(data@, value),
{
    let mut counts: Vec<u64> = Vec::new();
    let mut n: usize = 0;
    while n < 256
        invariant
            n <= 256,
            counts.len() == n,
            forall|k: int| 0 <= k < n ==> counts[k] == 0,
        decreases 256 - n,
    {
        counts.push(0);
        n = n + 1;
    }
    let mut i: usize = 0;
    while i < data.len()
        invariant
            i <= data.len(),
            counts.len() == 256,
            forall|value: u8|
                counts[value as int] == #[trigger] count_of(data@.take(i as int), value),
            forall|value: u8| #[trigger] count_of(data@.take(i as int), value) <= i,
        decreases data.len() - i,
    {
        let sample: u8 = data[i];
        proof {
            assert(data@.take(i as int + 1).drop_last() =~= data@.take(i as int));
            assert(data@.take(i as int + 1).last() == sample);
            assert(count_of(data@.take(i as int), sample) <= i);
            assert forall|value: u8| #[trigger]
                count_of(data@.take(i as int + 1), value) == count_of(
                    data@.take(i as int),
                    value,
                ) + if sample == value {
                    1nat
                } else {
                    0nat
                } by {}
        }
        let seen: u64 = counts[sample as usize];
        counts.set(sample as usize, seen + 1);
        i = i + 1;
    }
    proof {
        assert(data@.take(i as int) =~= data@);
    }
    counts
}

/// Tells whether the Otsu level of the image can be computed in 32 bits.
pub fn can_take_level(image: &Image) -> (r: bool)
    ensures
        r == level_fits(image.data@, image.width, image.height),
{
    if image.pixel_count() > u32::MAX as u64 {
        return false;
    }
    let counts = histogram(&image.data);
    let mut value: usize = 0;
    while value < 256
        invariant
            value <= 256,
            counts.len() == 256,
            forall|v: u8| counts[v as int] == #[trigger] count_of(image.data@, v),
            forall|v: u8| v < value ==> v * #[trigger] count_of(image.data@, v) <= u32::MAX,
        decreases 256 - value,
    {
        let count: u64 = counts[value];
        proof {
            assert(counts[(value as u8) as int] == count_of(image.data@, value as u8));
            assert(value as u128 * count as u128 <= 255 * 0xffff_ffff_ffff_ffff)
                by (nonlinear_arith)
                requires
                    value <= 255,
                    count <= 0xffff_ffff_ffff_ffff,
            ;
        }
        if value as u128 * count as u128 > u32::MAX as u128 {
            return false;
        }
        value = value + 1;
    }
    true
}

/// A two-level copy of the image, thresholded at its Otsu level; `None`
/// exactly where the level cannot be computed in 32 bits.
pub fn apply_threshold(image: &Image) -> (out: Option<Image>)
    requires
        image.wf(),
    ensures
        out.is_some() <==> level_fits(image.data@, image.width, image.height),
        out matches Some(two_level) ==> two_level.wf() && is_binarized(image@, two_level@),
{
    if can_take_level(image) {
        let level: u8 = otsu_level(image);
        let two_level = threshold(image, level);
        proof {
            assert(otsu_answer(image@.pixels, image@.width, image@.height, level));
            assert(two_level@ == (Raster {
                width: image@.width,
                height: image@.height,
                pixels: thresholded(image@.pixels, level),
            }));
        }
        Some(two_level)
    } else {
        None
    }
}

/// Whether a copy of the given size can be made of an image of the given
/// width: no side of the copy is zero, and neither the copy nor what is held
/// on the way to it is beyond what a vector can hold.
pub open spec fn can_resize(width: u32, new_width: u32, new_height: u32) -> bool {
    &&& new_width > 0
    &&& new_height > 0
    &&& 16 * (width * new_height) <= isize::MAX
    &&& new_width * new_height <= isize::MAX
}

/// The copy of an image at the given size, where one can be made.
pub open spec fn resized_to(r: Raster, new_width: u32, new_height: u32) -> Option<Raster> {
    if can_resize(r.width, new_width, new_height) {
        Some(
            Raster {
                width: new_width,
                height: new_height,
                pixels: resampled(r.pixels, r.width, r.height, new_width, new_height),
            },
        )
    } else {
        None
    }
}

/// A copy of the image at the given size. `None` where a side of the copy
/// would be zero, or where the copy could not be held.
pub fn resize(image: &Image, new_width: u32, new_height: u32) -> (out: Option<Image>)
    requires
        image.wf(),
    ensures
        out matches Some(small) ==> small.wf(),
        match resized_to(image@, new_width, new_height) {
            None => out.is_none(),
            Some(r) => out matches Some(small) && small@ == r,
        },
{
    if new_width == 0 || new_height == 0 {
        return None;
    }
    assert(image.width as u128 * new_height as u128 <= 0xffff_ffff * 0xffff_ffff
        && new_width as u128 * new_height as u128 <= 0xffff_ffff * 0xffff_ffff)
        by (nonlinear_arith)
        requires
            image.width <= 0xffff_ffff,
            new_width <= 0xffff_ffff,
            new_height <= 0xffff_ffff,
    ;
    if 16 * (image.width as u128 * new_height as u128) > isize::MAX as u128 {
        return None;
    }
    if new_width as u128 * new_height as u128 > isize::MAX as u128 {
        return None;
    }
    Some(resample(image, new_width, new_height))
}

/// The copy of an image at the factor `s`: each side times the factor,
/// rounded down. There is none where a side comes to zero or does not fit 32
/// bits, or where a copy of that size cannot be made.
pub open spec fn resized(r: Raster, s: Scale) -> Option<Raster> {
    let new_width = s.scaled(r.width);
    let new_height = s.scaled(r.height);
    if 0 <= new_width <= u32::MAX && 0 <= new_height <= u32::MAX {
        resized_to(r, new_width as u32, new_height as u32)
    } else {
        None
    }
}

/// Scales the image by `scale`, each side rounded down. `None` where a side
/// of the copy would be zero, or where the copy could not be held.
pub fn resize_by(image: &Image, scale: Scale) -> (out: Option<Image>)
    requires
        image.wf(),
        scale.wf(),
    ensures
        out matches Some(small) ==> small.wf(),
        match resized(image@, scale) {
            None => out.is_none(),
            Some(r) => out matches Some(small) && small@ == r,
        },
{
    let new_width: u32 = match scale.scale_length(image.width) {
        Some(v) => v,
        None => { return None; },
    };
    let new_height: u32 = match scale.scale_length(image.height) {
        Some(v) => v,
        None => { return None; },
    };
    resize(image, new_width, new_height)
}

} // verus!
