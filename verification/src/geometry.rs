//! Bounding boxes: the box that encloses a set of points, and the mapping of a
//! box from a scaled-down copy of an image back to the image itself.

use crate::coord::{clamp_to, Point};
use vstd::arithmetic::div_mod::{
    lemma_fundamental_div_mod, lemma_mod_bound, lemma_multiply_divide_lt,
};
use vstd::prelude::*;

verus! {

/// An axis-aligned rectangle in the pixel grid of some image.
#[derive(Clone, Copy, Debug, PartialEq, Eq, Structural)]
pub struct BoundingBox {
    pub x: u32,
    pub y: u32,
    pub width: u32,
    pub height: u32,
}

impl BoundingBox {
    /// The box lies inside an image of the given size.
    pub open spec fn within(self, image_width: u32, image_height: u32) -> bool {
        self.x + self.width <= image_width && self.y + self.height <= image_height
    }

    /// The box has an area: it stands for a detection.
    pub open spec fn nonempty(self) -> bool {
        self.width > 0 && self.height > 0
    }

    /// Tells a box with an area from a degenerate one.
    pub fn is_nonempty(&self) -> (r: bool)
        ensures
            r == self.nonempty(),
    {
        self.width > 0 && self.height > 0
    }
}

/// The integer bounds of a set of points, before any clamping.
pub struct Extent {
    pub min_x: int,
    pub max_x: int,
    pub min_y: int,
    pub max_y: int,
}

pub open spec fn least(a: int, b: int) -> int {
    if a <= b {
        a
    } else {
        b
    }
}

pub open spec fn greatest(a: int, b: int) -> int {
    if a >= b {
        a
    } else {
        b
    }
}

/// The extent of one finite point: the floor and the ceiling of each
/// coordinate.
pub open spec fn extent_of_point(p: Point) -> Extent {
    Extent { min_x: p.x.floor(), max_x: p.x.ceil(), min_y: p.y.floor(), max_y: p.y.ceil() }
}

/// The extent of the finite points among `points`; `None` where there is no
/// finite point.
pub open spec fn extent(points: Seq<Point>) -> Option<Extent>
    decreases points.len(),
{
    if points.len() == 0 {
        None
    } else {
        let p = points.last();
        let before = extent(points.drop_last());
        if !p.finite() {
            before
        } else {
            match before {
                None => Some(extent_of_point(p)),
                Some(e) => Some(
                    Extent {
                        min_x: least(e.min_x, p.x.floor()),
                        max_x: greatest(e.max_x, p.x.ceil()),
                        min_y: least(e.min_y, p.y.floor()),
                        max_y: greatest(e.max_y, p.y.ceil()),
                    },
                ),
            }
        }
    }
}

/// `a - b`, or zero where `b` is the larger.
pub open spec fn minus_or_zero(a: int, b: int) -> int {
    if a >= b {
        a - b
    } else {
        0
    }
}

/// The box of an extent in an image of the given size: each bound clamped
/// into the image.
pub open spec fn box_of_extent(e: Extent, image_width: u32, image_height: u32) -> BoundingBox {
    let left = clamp_to(e.min_x, image_width);
    let right = clamp_to(e.max_x, image_width);
    let top = clamp_to(e.min_y, image_height);
    let bottom = clamp_to(e.max_y, image_height);
    BoundingBox {
        x: left as u32,
        y: top as u32,
        width: minus_or_zero(right, left) as u32,
        height: minus_or_zero(bottom, top) as u32,
    }
}

/// The box that encloses the finite points among `points`, clamped into an
/// image of the given size.
pub open spec fn bbox_of_points(points: Seq<Point>, image_width: u32, image_height: u32) -> Option<
    BoundingBox,
> {
    match extent(points) {
        None => None,
        Some(e) => Some(box_of_extent(e, image_width, image_height)),
    }
}

/// The box that encloses the finite points among `points`, or `None` where
/// there is no finite point. Left and top are the floor of the least
/// coordinate, right and bottom the ceiling of the greatest, all clamped into
/// the image.
pub fn bbox_from_points(points: &Vec<Point>, image_width: u32, image_height: u32) -> (r: Option<
    BoundingBox,
>)
    ensures
        r == bbox_of_points(points@, image_width, image_height),
        r matches Some(b) ==> b.within(image_width, image_height),
{
    let mut any: bool = false;
    let mut left: u32 = 0;
    let mut right: u32 = 0;
    let mut top: u32 = 0;
    let mut bottom: u32 = 0;
    let mut i: usize = 0;
    while i < points.len()
        invariant
            i <= points.len(),
            any == extent(points@.take(i as int)).is_some(),
            any ==> {
                let e = extent(points@.take(i as int)).unwrap();
                &&& left == clamp_to(e.min_x, image_width)
                &&& right == clamp_to(e.max_x, image_width)
                &&& top == clamp_to(e.min_y, image_height)
                &&& bottom == clamp_to(e.max_y, image_height)
            },
        decreases points.len() - i,
    {
        let p: Point = points[i];
        proof {
            assert(points@.take(i as int + 1).drop_last() =~= points@.take(i as int));
            assert(points@.take(i as int + 1).last() == p);
        }
        if p.is_finite() {
            let l: u32 = p.x.floor_within(image_width);
            let r: u32 = p.x.ceil_within(image_width);
            let t: u32 = p.y.floor_within(image_height);
            let b: u32 = p.y.ceil_within(image_height);
            if any {
                left = if l < left {
                    l
                } else {
                    left
                };
                right = if r > right {
                    r
                } else {
                    right
                };
                top = if t < top {
                    t
                } else {
                    top
                };
                bottom = if b > bottom {
                    b
                } else {
                    bottom
                };
            } else {
                left = l;
                right = r;
                top = t;
                bottom = b;
                any = true;
            }
        }
        i = i + 1;
    }
    proof {
        assert(points@.take(i as int) =~= points@);
    }
    if any {
        Some(
            BoundingBox {
                x: left,
                y: top,
                width: right.saturating_sub(left),
                height: bottom.saturating_sub(top),
            },
        )
    } else {
        None
    }
}

/// Some finite point among `points` has the value `v` under `f`.
pub open spec fn reached(points: Seq<Point>, f: spec_fn(Point) -> int, v: int) -> bool {
    exists|i: int| 0 <= i < points.len() && points[i].finite() && #[trigger] f(points[i]) == v
}

/// What is reached before the last point is reached, and so is what the last
/// point has, where it is finite.
proof fn lemma_reached_grows(points: Seq<Point>, f: spec_fn(Point) -> int, v: int)
    requires
        points.len() > 0,
        reached(points.drop_last(), f, v) || (points.last().finite() && f(points.last()) == v),
    ensures
        reached(points, f, v),
{
    if reached(points.drop_last(), f, v) {
        let head = points.drop_last();
        let i = choose|i: int| 0 <= i < head.len() && head[i].finite() && #[trigger] f(head[i]) == v;
        assert(points[i] == head[i]);
    } else {
        assert(points[points.len() - 1] == points.last());
    }
}

/// What the extent is: there is none exactly where no point is finite;
/// otherwise each bound is reached by a finite point and holds of all of
/// them.
pub proof fn lemma_extent_bounds(points: Seq<Point>)
    ensures
        extent(points).is_none() <==> (forall|i: int| 0 <= i < points.len() ==> !points[i].finite()),
        extent(points) matches Some(e) ==> {
            &&& forall|i: int|
                0 <= i < points.len() && points[i].finite() ==> e.min_x <= points[i].x.floor()
                    && points[i].x.ceil() <= e.max_x && e.min_y <= points[i].y.floor()
                    && points[i].y.ceil() <= e.max_y
            &&& reached(points, |p: Point| p.x.floor(), e.min_x)
            &&& reached(points, |p: Point| p.x.ceil(), e.max_x)
            &&& reached(points, |p: Point| p.y.floor(), e.min_y)
            &&& reached(points, |p: Point| p.y.ceil(), e.max_y)
        },
    decreases points.len(),
{
    if points.len() > 0 {
        let head = points.drop_last();
        lemma_extent_bounds(head);
        assert(forall|i: int| 0 <= i < head.len() ==> head[i] == points[i]);
        assert(points[points.len() - 1] == points.last());
        match extent(points) {
            None => {},
            Some(e) => {
                lemma_reached_grows(points, |p: Point| p.x.floor(), e.min_x);
                lemma_reached_grows(points, |p: Point| p.x.ceil(), e.max_x);
                lemma_reached_grows(points, |p: Point| p.y.floor(), e.min_y);
                lemma_reached_grows(points, |p: Point| p.y.ceil(), e.max_y);
            },
        }
    }
}

/// Whatever the points are, their box lies inside the image that it was
/// clamped to.
pub proof fn lemma_bbox_of_points_within(points: Seq<Point>, image_width: u32, image_height: u32)
    ensures
        bbox_of_points(points, image_width, image_height) matches Some(b) ==> b.within(
            image_width,
            image_height,
        ),
{
}

/// A scale factor as an exact fraction `num / den`.
#[derive(Clone, Copy, Debug, PartialEq, Eq, Structural)]
pub struct Scale {
    pub num: u64,
    pub den: u64,
}

impl Scale {
    /// A fraction has a denominator other than zero.
    pub open spec fn wf(self) -> bool {
        self.den > 0
    }

    /// The factor is above zero.
    pub open spec fn positive(self) -> bool {
        self.num > 0
    }

    /// The factor is below one: it shrinks.
    pub open spec fn below_one(self) -> bool {
        self.num < self.den
    }

    /// The fraction `num / den`; `None` where `den` is zero.
    pub fn new(num: u64, den: u64) -> (r: Option<Scale>)
        ensures
            den == 0 ==> r.is_none(),
            den != 0 ==> r == Some(Scale { num, den }),
            r matches Some(s) ==> s.wf(),
    {
        if den == 0 {
            None
        } else {
            Some(Scale { num, den })
        }
    }

    /// Tells whether the factor is below one.
    pub fn is_below_one(&self) -> (r: bool)
        ensures
            r == self.below_one(),
    {
        self.num < self.den
    }

    /// A length of the full-size image at this scale, rounded down.
    pub open spec fn scaled(self, length: u32) -> int {
        length * self.num / (self.den as int)
    }

    /// A length of the full-size image at this scale, rounded down; `None`
    /// where it does not fit 32 bits, which no factor below one brings about.
    pub fn scale_length(&self, length: u32) -> (r: Option<u32>)
        requires
            self.wf(),
        ensures
            self.scaled(length) <= u32::MAX ==> r == Some(self.scaled(length) as u32),
            self.scaled(length) > u32::MAX ==> r.is_none(),
            self.below_one() ==> r.is_some(),
    {
        assert(length as u128 * self.num as u128 <= 0xffff_ffff * 0xffff_ffff_ffff_ffff)
            by (nonlinear_arith)
            requires
                length <= 0xffff_ffff,
                self.num <= 0xffff_ffff_ffff_ffff,
        ;
        let wide: u128 = length as u128 * self.num as u128;
        let q: u128 = wide / self.den as u128;
        proof {
            if self.below_one() {
                assert(length * self.num < self.den * (length + 1)) by (nonlinear_arith)
                    requires
                        self.num < self.den,
                        0 <= length,
                ;
                lemma_multiply_divide_lt(length * self.num, self.den as int, length + 1);
            }
        }
        if q > u32::MAX as u128 {
            None
        } else {
            Some(q as u32)
        }
    }
}

/// `a / d` rounded up, for `a >= 0` and `d > 0`.
pub open spec fn div_up(a: int, d: int) -> int {
    (a + d - 1) / d
}

/// `a + b`, or the largest `u32` where the sum is above it.
pub open spec fn plus_capped(a: u32, b: u32) -> int {
    if a + b > u32::MAX {
        u32::MAX as int
    } else {
        a + b
    }
}

/// The box `b` of a copy scaled by `s`, in the grid of the full-size image:
/// each bound divided by the factor, left and top rounded down, right and
/// bottom rounded up, all clamped into the full-size image. A factor of zero
/// leaves the box as it is.
pub open spec fn rescaled_box(b: BoundingBox, s: Scale, width: u32, height: u32) -> BoundingBox {
    if s.num == 0 {
        b
    } else {
        let left = clamp_to(b.x * s.den / (s.num as int), width);
        let right = clamp_to(div_up(plus_capped(b.x, b.width) * s.den, s.num as int), width);
        let top = clamp_to(b.y * s.den / (s.num as int), height);
        let bottom = clamp_to(div_up(plus_capped(b.y, b.height) * s.den, s.num as int), height);
        BoundingBox {
            x: left as u32,
            y: top as u32,
            width: minus_or_zero(right, left) as u32,
            height: minus_or_zero(bottom, top) as u32,
        }
    }
}

/// `v / s` rounded down and clamped into `0..=limit`.
fn unscale_down(v: u32, s: Scale, limit: u32) -> (r: u32)
    requires
        s.num > 0,
    ensures
        r == clamp_to(v * s.den / (s.num as int), limit),
{
    assert(v as u128 * s.den as u128 <= 0xffff_ffff * 0xffff_ffff_ffff_ffff) by (nonlinear_arith)
        requires
            v <= 0xffff_ffff,
            s.den <= 0xffff_ffff_ffff_ffff,
    ;
    let q: u128 = (v as u128 * s.den as u128) / s.num as u128;
    if q > limit as u128 {
        limit
    } else {
        q as u32
    }
}

/// `v / s` rounded up and clamped into `0..=limit`.
fn unscale_up(v: u32, s: Scale, limit: u32) -> (r: u32)
    requires
        s.num > 0,
    ensures
        r == clamp_to(div_up(v * s.den, s.num as int), limit),
{
    assert(v as u128 * s.den as u128 <= 0xffff_ffff * 0xffff_ffff_ffff_ffff) by (nonlinear_arith)
        requires
            v <= 0xffff_ffff,
            s.den <= 0xffff_ffff_ffff_ffff,
    ;
    let q: u128 = (v as u128 * s.den as u128 + (s.num as u128 - 1)) / s.num as u128;
    if q > limit as u128 {
        limit
    } else {
        q as u32
    }
}

/// Maps a box found in a copy of the image scaled by `scale` back to the
/// grid of the image itself, whose size is `width` by `height`.
pub fn rescale_bbox(bbox: BoundingBox, scale: Scale, width: u32, height: u32) -> (r: BoundingBox)
    ensures
        r == rescaled_box(bbox, scale, width, height),
        scale.num > 0 ==> r.within(width, height),
{
    if scale.num == 0 {
        bbox
    } else {
        let left: u32 = unscale_down(bbox.x, scale, width);
        let right: u32 = unscale_up(bbox.x.saturating_add(bbox.width), scale, width);
        let top: u32 = unscale_down(bbox.y, scale, height);
        let bottom: u32 = unscale_up(bbox.y.saturating_add(bbox.height), scale, height);
        BoundingBox {
            x: left,
            y: top,
            width: right.saturating_sub(left),
            height: bottom.saturating_sub(top),
        }
    }
}

/// One axis of the mapping back: a span `start..start + length` with a
/// length, inside a copy whose side `small` is at most `limit` times the
/// factor, maps to a span with a length inside `0..=limit` that covers the
/// span's true image.
pub proof fn lemma_rescale_axis(start: u32, length: u32, s: Scale, small: u32, limit: u32)
    requires
        s.num > 0,
        s.den > 0,
        length > 0,
        start + length <= small,
        small * s.den <= limit * s.num,
    ensures
        ({
            let left = clamp_to(start * s.den / (s.num as int), limit);
            let right = clamp_to(div_up(plus_capped(start, length) * s.den, s.num as int), limit);
            &&& 0 <= left < right <= limit
            &&& left * s.num <= start * s.den
            &&& (start + length) * s.den <= right * s.num
        }),
{
    let num = s.num as int;
    let den = s.den as int;
    let a = start * den;
    let b = (start + length) * den;
    let lo = a / num;
    let hi = div_up(b, num);
    assert(plus_capped(start, length) == start + length);
    assert(0 <= a < b <= limit * num) by (nonlinear_arith)
        requires
            a == start * den,
            b == (start + length) * den,
            den > 0,
            length > 0,
            start + length <= small,
            small * den <= limit * num,
    ;
    lemma_fundamental_div_mod(a, num);
    lemma_mod_bound(a, num);
    lemma_fundamental_div_mod(b + num - 1, num);
    lemma_mod_bound(b + num - 1, num);
    assert(num * lo <= a);
    assert(num * hi >= b);
    assert(lo < hi) by (nonlinear_arith)
        requires
            num * lo <= a,
            a < b,
            b <= num * hi,
            num > 0,
    ;
    assert(b + num - 1 < num * (limit + 1)) by (nonlinear_arith)
        requires
            b <= limit * num,
            num > 0,
    ;
    lemma_multiply_divide_lt(b + num - 1, num, limit + 1);
    assert(0 <= lo) by (nonlinear_arith)
        requires
            num * lo + a % num == a,
            0 <= a,
            0 <= a % num < num,
    ;
    assert(lo * num == num * lo && hi * num == num * hi) by (nonlinear_arith);
}

/// Mapping back keeps detections valid and covers them: a box with an area,
/// inside a copy whose sides are at most the full-size sides times the
/// factor, maps to a box with an area inside the full-size image, and that
/// box covers the true image of the first.
pub proof fn lemma_rescaled_box_valid(
    b: BoundingBox,
    s: Scale,
    small_width: u32,
    small_height: u32,
    width: u32,
    height: u32,
)
    requires
        s.wf(),
        s.positive(),
        b.nonempty(),
        b.within(small_width, small_height),
        small_width * s.den <= width * s.num,
        small_height * s.den <= height * s.num,
    ensures
        rescaled_box(b, s, width, height).nonempty(),
        rescaled_box(b, s, width, height).within(width, height),
        rescaled_box(b, s, width, height).x * s.num <= b.x * s.den,
        rescaled_box(b, s, width, height).y * s.num <= b.y * s.den,
        (b.x + b.width) * s.den <= (rescaled_box(b, s, width, height).x + rescaled_box(
            b,
            s,
            width,
            height,
        ).width) * s.num,
        (b.y + b.height) * s.den <= (rescaled_box(b, s, width, height).y + rescaled_box(
            b,
            s,
            width,
            height,
        ).height) * s.num,
{
    lemma_rescale_axis(b.x, b.width, s, small_width, width);
    lemma_rescale_axis(b.y, b.height, s, small_height, height);
}

/// The side of a scaled copy, rounded down, is at most the full-size side
/// times the factor.
pub proof fn lemma_scaled_side(s: Scale, length: u32)
    requires
        s.wf(),
    ensures
        0 <= s.scaled(length),
        s.scaled(length) * s.den <= length * s.num,
        s.below_one() ==> s.scaled(length) <= length,
{
    let a = length * s.num;
    let den = s.den as int;
    assert(0 <= a) by (nonlinear_arith)
        requires
            a == length * s.num,
    ;
    lemma_fundamental_div_mod(a, den);
    lemma_mod_bound(a, den);
    assert(0 <= a / den && (a / den) * den <= a) by (nonlinear_arith)
        requires
            den * (a / den) + a % den == a,
            0 <= a % den < den,
            0 <= a,
    ;
    if s.below_one() {
        assert(a < den * (length + 1)) by (nonlinear_arith)
            requires
                a == length * s.num,
                s.num < den,
                0 <= length,
        ;
        lemma_multiply_divide_lt(a, den, length + 1);
    }
}

} // verus!
