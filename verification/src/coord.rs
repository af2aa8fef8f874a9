//! Coordinates of the points that decoders report.
//!
//! One decoder reports whole pixels, the other IEEE 754 single-precision
//! values. A single-precision value is kept as its bit pattern, and what the
//! geometry needs of it (whether it is finite, its floor and its ceiling) is
//! computed from the bits with integer arithmetic.

use vstd::arithmetic::div_mod::{
    lemma_basic_div, lemma_div_pos_is_pos, lemma_fundamental_div_mod,
    lemma_fundamental_div_mod_converse, lemma_mod_bound,
};
use vstd::arithmetic::power2::{
    lemma2_to64, lemma_pow2_pos, lemma_pow2_strictly_increases, lemma_pow2_unfold, pow2,
};
use vstd::prelude::*;

verus! {

/// Sign bit of a single-precision bit pattern.
pub open spec fn single_negative(bits: u32) -> bool {
    bits >= 0x8000_0000u32
}

/// Biased exponent field (8 bits) of a single-precision bit pattern.
pub open spec fn single_exponent(bits: u32) -> int {
    (bits as int / 0x80_0000) % 256
}

/// Fraction field (23 bits) of a single-precision bit pattern.
pub open spec fn single_fraction(bits: u32) -> int {
    bits as int % 0x80_0000
}

/// Integer significand: the fraction, with the implicit leading bit for a
/// normal number.
pub open spec fn single_significand(bits: u32) -> int {
    if single_exponent(bits) == 0 {
        single_fraction(bits)
    } else {
        single_fraction(bits) + 0x80_0000
    }
}

/// The power of two by which the significand is scaled: the magnitude of the
/// value is `single_significand(bits) * 2^single_power(bits)`.
pub open spec fn single_power(bits: u32) -> int {
    if single_exponent(bits) == 0 {
        -149
    } else {
        single_exponent(bits) - 150
    }
}

/// A bit pattern stands for a finite number unless its exponent field is all
/// ones (infinities and NaNs).
pub open spec fn single_finite(bits: u32) -> bool {
    single_exponent(bits) != 255
}

/// Greatest integer not above the magnitude.
pub open spec fn magnitude_floor(bits: u32) -> int {
    let p = single_power(bits);
    if p >= 0 {
        single_significand(bits) * pow2(p as nat)
    } else {
        single_significand(bits) / (pow2((-p) as nat) as int)
    }
}

/// Least integer not below the magnitude.
pub open spec fn magnitude_ceil(bits: u32) -> int {
    let p = single_power(bits);
    if p >= 0 {
        single_significand(bits) * pow2(p as nat)
    } else {
        (single_significand(bits) + pow2((-p) as nat) - 1) / (pow2((-p) as nat) as int)
    }
}

/// `v` brought into `0..=limit`.
pub open spec fn clamp_to(v: int, limit: u32) -> int {
    if v < 0 {
        0
    } else if v > limit {
        limit as int
    } else {
        v
    }
}

/// One coordinate of a point.
#[derive(Clone, Copy, Debug)]
pub enum Coord {
    /// A whole number of pixels.
    Pixel(i32),
    /// An IEEE 754 single-precision value, given by its bit pattern.
    Single(u32),
}

impl Coord {
    /// Whether the coordinate is a number that can take part in a bound.
    pub open spec fn finite(self) -> bool {
        match self {
            Coord::Pixel(_) => true,
            Coord::Single(bits) => single_finite(bits),
        }
    }

    /// Greatest integer not above the coordinate. Of a pattern that is not
    /// finite it is what the same formula gives, and means nothing.
    pub open spec fn floor(self) -> int {
        match self {
            Coord::Pixel(v) => v as int,
            Coord::Single(bits) => if single_negative(bits) {
                -magnitude_ceil(bits)
            } else {
                magnitude_floor(bits)
            },
        }
    }

    /// Least integer not below the coordinate. Of a pattern that is not
    /// finite it is what the same formula gives, and means nothing.
    pub open spec fn ceil(self) -> int {
        match self {
            Coord::Pixel(v) => v as int,
            Coord::Single(bits) => if single_negative(bits) {
                -magnitude_floor(bits)
            } else {
                magnitude_ceil(bits)
            },
        }
    }

    /// Tells a number from an infinity or a NaN.
    pub fn is_finite(&self) -> (r: bool)
        ensures
            r == self.finite(),
    {
        match self {
            Coord::Pixel(_) => true,
            Coord::Single(bits) => (*bits / 0x80_0000u32) % 256u32 != 255u32,
        }
    }

    /// The floor of the coordinate, clamped into `0..=limit`.
    pub fn floor_within(&self, limit: u32) -> (r: u32)
        ensures
            r == clamp_to(self.floor(), limit),
    {
        match self {
            Coord::Pixel(v) => clamp_pixel(*v, limit),
            Coord::Single(bits) => {
                let bits: u32 = *bits;
                proof {
                    lemma_magnitude_bounds(bits);
                }
                if bits >= 0x8000_0000u32 {
                    0
                } else {
                    clamp_wide(magnitude_capped(bits, false), limit)
                }
            },
        }
    }

    /// The ceiling of the coordinate, clamped into `0..=limit`.
    pub fn ceil_within(&self, limit: u32) -> (r: u32)
        ensures
            r == clamp_to(self.ceil(), limit),
    {
        match self {
            Coord::Pixel(v) => clamp_pixel(*v, limit),
            Coord::Single(bits) => {
                let bits: u32 = *bits;
                proof {
                    lemma_magnitude_bounds(bits);
                }
                if bits >= 0x8000_0000u32 {
                    0
                } else {
                    clamp_wide(magnitude_capped(bits, true), limit)
                }
            },
        }
    }
}

/// A point in the pixel grid of some image.
#[derive(Clone, Copy, Debug)]
pub struct Point {
    pub x: Coord,
    pub y: Coord,
}

impl Point {
    /// A point is finite when both of its coordinates are.
    pub open spec fn finite(self) -> bool {
        self.x.finite() && self.y.finite()
    }

    /// A point on whole pixels.
    pub fn from_pixels(x: i32, y: i32) -> (p: Point)
        ensures
            p == (Point { x: Coord::Pixel(x), y: Coord::Pixel(y) }),
    {
        Point { x: Coord::Pixel(x), y: Coord::Pixel(y) }
    }

    /// A point whose coordinates are single-precision bit patterns.
    pub fn from_single_bits(x: u32, y: u32) -> (p: Point)
        ensures
            p == (Point { x: Coord::Single(x), y: Coord::Single(y) }),
    {
        Point { x: Coord::Single(x), y: Coord::Single(y) }
    }

    /// Tells whether both coordinates are numbers.
    pub fn is_finite(&self) -> (r: bool)
        ensures
            r == self.finite(),
    {
        self.x.is_finite() && self.y.is_finite()
    }
}

/// What the floor and the ceiling of a magnitude are. Neither is negative,
/// and the ceiling is the floor or one more. Where the significand is scaled
/// down by `d`, the floor is the greatest integer whose `d`-fold is not above
/// the significand, and the ceiling the least one whose `d`-fold is not below.
pub proof fn lemma_magnitude_bounds(bits: u32)
    ensures
        0 <= magnitude_floor(bits) <= magnitude_ceil(bits) <= magnitude_floor(bits) + 1,
        single_power(bits) < 0 ==> ({
            let d = pow2((-single_power(bits)) as nat) as int;
            let sig = single_significand(bits);
            &&& magnitude_floor(bits) * d <= sig < (magnitude_floor(bits) + 1) * d
            &&& (magnitude_ceil(bits) - 1) * d < sig <= magnitude_ceil(bits) * d
        }),
{
    let sig = single_significand(bits);
    let p = single_power(bits);
    assert(0 <= sig);
    if p >= 0 {
        lemma_pow2_pos(p as nat);
        assert(0 <= sig * pow2(p as nat)) by (nonlinear_arith)
            requires
                0 <= sig,
                0 < pow2(p as nat),
        ;
    } else {
        let d = pow2((-p) as nat) as int;
        lemma_pow2_pos((-p) as nat);
        let q = sig / d;
        let r = sig % d;
        lemma_fundamental_div_mod(sig, d);
        lemma_mod_bound(sig, d);
        lemma_div_pos_is_pos(sig, d);
        if r == 0 {
            lemma_fundamental_div_mod_converse(sig + d - 1, d, q, d - 1);
        } else {
            assert(sig + d - 1 == (q + 1) * d + (r - 1)) by (nonlinear_arith)
                requires
                    sig == d * q + r,
            ;
            lemma_fundamental_div_mod_converse(sig + d - 1, d, q + 1, r - 1);
        }
        assert(q * d <= sig < (q + 1) * d) by (nonlinear_arith)
            requires
                sig == d * q + r,
                0 <= r < d,
        ;
        let c = magnitude_ceil(bits);
        assert((c - 1) * d < sig <= c * d) by (nonlinear_arith)
            requires
                sig == d * q + r,
                0 <= r < d,
                c == if r == 0 {
                    q
                } else {
                    q + 1
                },
        ;
    }
}

/// The floor of a coordinate is not above its ceiling, and the two differ by
/// one at most.
pub proof fn lemma_floor_ceil(c: Coord)
    ensures
        c.floor() <= c.ceil() <= c.floor() + 1,
{
    match c {
        Coord::Pixel(_) => {},
        Coord::Single(bits) => {
            lemma_magnitude_bounds(bits);
        },
    }
}

fn clamp_pixel(v: i32, limit: u32) -> (r: u32)
    ensures
        r == clamp_to(v as int, limit),
{
    if v < 0 {
        0
    } else if v as u32 > limit {
        limit
    } else {
        v as u32
    }
}

fn clamp_wide(v: u64, limit: u32) -> (r: u32)
    ensures
        r == clamp_to(v as int, limit),
{
    if v > limit as u64 {
        limit
    } else {
        v as u32
    }
}

/// Two to the power `n`.
fn power_of_two(n: u32) -> (r: u64)
    requires
        n <= 32,
    ensures
        r == pow2(n as nat),
{
    let mut r: u64 = 1;
    let mut i: u32 = 0;
    proof {
        lemma2_to64();
    }
    while i < n
        invariant
            i <= n <= 32,
            r == pow2(i as nat),
            r <= pow2(32),
            pow2(32) == 0x1_0000_0000,
        decreases n - i,
    {
        proof {
            lemma_pow2_unfold((i + 1) as nat);
            if i + 1 < 32 {
                lemma_pow2_strictly_increases((i + 1) as nat, 32);
            }
        }
        r = r * 2;
        i = i + 1;
    }
    r
}

/// The cap above which no clamped value can tell two magnitudes apart.
spec fn cap() -> int {
    0x1_0000_0000
}

/// The floor of the magnitude, or with `up` its ceiling.
spec fn magnitude_rounded(bits: u32, up: bool) -> int {
    if up {
        magnitude_ceil(bits)
    } else {
        magnitude_floor(bits)
    }
}

/// The floor of the magnitude, or with `up` its ceiling; where that is above
/// every `u32`, any value above every `u32`.
fn magnitude_capped(bits: u32, up: bool) -> (r: u64)
    ensures
        magnitude_rounded(bits, up) < cap() ==> r == magnitude_rounded(bits, up),
        magnitude_rounded(bits, up) >= cap() ==> r >= cap(),
{
    let e: u32 = (bits / 0x80_0000u32) % 256u32;
    let fraction: u32 = bits % 0x80_0000u32;
    let sig: u64 = if e == 0 {
        fraction as u64
    } else {
        fraction as u64 + 0x80_0000u64
    };
    if e >= 150 {
        let p: u32 = e - 150;
        if p >= 9 {
            proof {
                lemma_large_power(sig as int, p as nat);
            }
            0x1_0000_0000u64
        } else {
            let d: u64 = power_of_two(p);
            proof {
                lemma_small_power(sig as int, p as nat);
            }
            sig * d
        }
    } else {
        let k: u32 = if e == 0 {
            149
        } else {
            150 - e
        };
        if k >= 25 {
            proof {
                lemma_tiny(sig as int, k as nat);
            }
            if up && sig > 0 {
                1
            } else {
                0
            }
        } else {
            let d: u64 = power_of_two(k);
            proof {
                lemma_pow2_pos(k as nat);
                lemma2_to64();
                if k < 24 {
                    lemma_pow2_strictly_increases(k as nat, 24);
                }
            }
            if up {
                (sig + d - 1) / d
            } else {
                sig / d
            }
        }
    }
}

/// A normal significand scaled by `2^9` or more is above every `u32`.
proof fn lemma_large_power(sig: int, p: nat)
    requires
        0x80_0000 <= sig,
        9 <= p,
    ensures
        sig * pow2(p) >= cap(),
{
    lemma2_to64();
    if p > 9 {
        lemma_pow2_strictly_increases(9, p);
    }
    assert(sig * pow2(p) >= 0x80_0000 * 512) by (nonlinear_arith)
        requires
            0x80_0000 <= sig,
            512 <= pow2(p),
    ;
}

/// A significand scaled by less than `2^9` fits 32 bits.
proof fn lemma_small_power(sig: int, p: nat)
    requires
        0 <= sig < 0x100_0000,
        p < 9,
    ensures
        0 <= sig * pow2(p) < cap(),
{
    lemma2_to64();
    if p < 8 {
        lemma_pow2_strictly_increases(p, 8);
    }
    lemma_pow2_pos(p);
    assert(0 <= sig * pow2(p) < 0x100_0000 * 256) by (nonlinear_arith)
        requires
            0 <= sig < 0x100_0000,
            0 < pow2(p) <= 256,
    ;
}

/// Below `2^-24` times the largest significand lies less than one.
proof fn lemma_tiny(sig: int, k: nat)
    requires
        0 <= sig < 0x100_0000,
        25 <= k,
    ensures
        sig / (pow2(k) as int) == 0,
        (sig + pow2(k) - 1) / (pow2(k) as int) == if sig > 0 {
            1int
        } else {
            0int
        },
{
    lemma2_to64();
    lemma_pow2_strictly_increases(24, k);
    let d = pow2(k) as int;
    lemma_basic_div(sig, d);
    if sig > 0 {
        lemma_fundamental_div_mod_converse(sig + d - 1, d, 1, sig - 1);
    } else {
        lemma_basic_div(d - 1, d);
    }
}

} // verus!
